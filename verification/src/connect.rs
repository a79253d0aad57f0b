//! The configuration with which a worker connects to its coordinator.

use vstd::multiset::Multiset;
use vstd::prelude::*;
use vstd::string::*;

use crate::text::chars_of;
use crate::text::{law_first_piece, lemma_next_index, lemma_next_index_is, next_index, pieces};

verus! {

/// The session configuration, as the `zenoh` crate holds it.
#[verifier::external_type_specification]
#[verifier::external_body]
pub struct ExConfig(zenoh::Config);

/// The JSON5 text of the configuration of a client that connects to one peer.
pub open spec fn client_config_text(peer: Seq<char>) -> Seq<char> {
    "{\n            mode: \"client\",\n            connect: {\n                endpoints: [\""@
        + peer + "\"]\n            }\n        }"@
}

/// Whether a character stands for itself inside a JSON5 string in double
/// quotes.
pub open spec fn is_plain_char(c: char) -> bool {
    c != '"' && c != '\\' && c != '\n' && c != '\r' && c != '\u{2028}' && c != '\u{2029}'
}

/// Whether an endpoint text stands for itself inside a JSON5 string.
pub open spec fn is_plain(peer: Seq<char>) -> bool {
    forall|i: int| 0 <= i < peer.len() ==> is_plain_char(#[trigger] peer[i])
}

/// Whether a text is a list of endpoint parameters: entries between
/// semicolons, at least one of them not empty, and none that starts with the
/// equals sign, that is, has an empty key.
pub open spec fn is_parameters(s: Seq<char>) -> bool {
    let entries = pieces(s, ';');
    &&& exists|i: int| 0 <= i < entries.len() && #[trigger] entries[i].len() > 0
    &&& forall|i: int|
        0 <= i < entries.len() && #[trigger] entries[i].len() > 0 ==> entries[i][0] != '='
}

/// Whether a text has the form `<protocol>/<address>[?<metadata>][#<config>]`:
/// neither the protocol nor what follows the first slash is empty, the
/// metadata and the configuration come after that slash, in this order, and
/// both are parameters.
pub open spec fn is_endpoint(s: Seq<char>) -> bool {
    let n = s.len() as int;
    let slash = next_index(s, '/', 0);
    let mark = next_index(s, '?', 0);
    let hash = next_index(s, '#', 0);
    &&& 0 < slash < n - 1
    &&& mark < n ==> slash < mark && (hash < n ==> mark < hash) && is_parameters(
        s.subrange(mark + 1, hash),
    )
    &&& hash < n ==> slash < hash && is_parameters(s.subrange(hash + 1, n))
}

/// Whether an endpoint text has neither metadata nor a configuration.
pub open spec fn is_bare(s: Seq<char>) -> bool {
    forall|i: int| 0 <= i < s.len() ==> #[trigger] s[i] != '?' && s[i] != '#'
}

/// The key and the value of a parameter: what stands before the first equals
/// sign and what follows it; without an equals sign, the value is empty.
pub open spec fn parameter(entry: Seq<char>) -> (Seq<char>, Seq<char>) {
    let at = next_index(entry, '=', 0);
    if at < entry.len() {
        (entry.take(at), entry.skip(at + 1))
    } else {
        (entry, seq![])
    }
}

/// The parameters that a text lists, in no order. Empty entries are none.
pub open spec fn parameters(s: Seq<char>) -> Multiset<(Seq<char>, Seq<char>)> {
    pieces(s, ';').filter(|e: Seq<char>| e.len() > 0).map_values(
        |e: Seq<char>| parameter(e),
    ).to_multiset()
}

/// The protocol and the address of an endpoint text.
pub open spec fn locator(s: Seq<char>) -> Seq<char> {
    let mark = next_index(s, '?', 0);
    let hash = next_index(s, '#', 0);
    s.take(
        if mark < hash {
            mark
        } else {
            hash
        },
    )
}

/// The metadata of an endpoint text; `None` where it has none.
pub open spec fn metadata(s: Seq<char>) -> Option<Multiset<(Seq<char>, Seq<char>)>> {
    let mark = next_index(s, '?', 0);
    if mark < s.len() {
        Some(parameters(s.subrange(mark + 1, next_index(s, '#', 0))))
    } else {
        None
    }
}

/// The configuration of an endpoint text; `None` where it has none.
pub open spec fn settings(s: Seq<char>) -> Option<Multiset<(Seq<char>, Seq<char>)>> {
    let hash = next_index(s, '#', 0);
    if hash < s.len() {
        Some(parameters(s.subrange(hash + 1, s.len() as int)))
    } else {
        None
    }
}

/// Whether two endpoint texts say the same: the same protocol and address, and
/// the same parameters in metadata and configuration, in whatever order.
pub open spec fn same_endpoint(a: Seq<char>, b: Seq<char>) -> bool {
    &&& locator(a) == locator(b)
    &&& metadata(a) == metadata(b)
    &&& settings(a) == settings(b)
}

/// Endpoints without parameters say the same only if they are the same text.
proof fn lemma_bare_endpoint(held: Seq<char>, peer: Seq<char>)
    requires
        same_endpoint(held, peer),
        is_bare(peer),
    ensures
        held == peer,
{
    lemma_next_index(peer, '?', 0);
    lemma_next_index(peer, '#', 0);
    lemma_next_index(held, '?', 0);
    lemma_next_index(held, '#', 0);
    assert(metadata(peer) is None);
    assert(settings(peer) is None);
    assert(locator(peer) =~= peer);
    assert(locator(held) =~= held);
}

/// The endpoints that a configuration tells to connect to.
pub uninterp spec fn endpoints_held(config: zenoh::Config) -> Seq<Seq<char>>;

/// Whether a configuration is that of a client.
pub uninterp spec fn in_client_mode(config: zenoh::Config) -> bool;

/// `zenoh::Config::from_json5` reads a configuration from JSON5 text. What is
/// claimed is for the text of a plain endpoint: it is taken if and only if the
/// endpoint is well-formed; the configuration is then that of a client, and it
/// holds one endpoint, which says the same as the given one (its parameters
/// are put in order). Nothing is claimed of the rest of the configuration,
/// which holds defaults that the machine sets, nor of the words of an error.
/// Other text may make the parser panic.
#[verifier::external_body]
fn config_from_json5(text: &str) -> (r: Result<zenoh::Config, String>)
    requires
        exists|peer: Seq<char>| text@ == #[trigger] client_config_text(peer) && is_plain(peer),
    ensures
        forall|peer: Seq<char>|
            text@ == #[trigger] client_config_text(peer) ==> (r is Ok <==> is_endpoint(peer)),
        forall|peer: Seq<char>|
            text@ == #[trigger] client_config_text(peer) && r is Ok ==> {
                &&& in_client_mode(r->Ok_0)
                &&& endpoints_held(r->Ok_0).len() == 1
                &&& same_endpoint(endpoints_held(r->Ok_0)[0], peer)
            },
{
    match zenoh::Config::from_json5(text) {
        Ok(config) => Ok(config),
        Err(e) => Err(format!("{:?}", e)),
    }
}

/// Whether an endpoint text stands for itself inside a JSON5 string.
pub fn peer_is_plain(peer: &str) -> (r: bool)
    ensures
        r == is_plain(peer@),
        r <==> forall|i: int|
            0 <= i < peer@.len() ==> {
                &&& #[trigger] peer@[i] != '"'
                &&& peer@[i] != '\\'
                &&& peer@[i] != '\n'
                &&& peer@[i] != '\r'
                &&& peer@[i] != '\u{2028}'
                &&& peer@[i] != '\u{2029}'
            },
{
    let chars = chars_of(peer);
    for i in 0..chars.len()
        invariant
            chars@ == peer@,
            i <= chars@.len(),
            forall|j: int| 0 <= j < i ==> is_plain_char(#[trigger] chars@[j]),
    {
        let c = chars[i];
        if c == '"' || c == '\\' || c == '\n' || c == '\r' || c == '\u{2028}' || c == '\u{2029}' {
            assert(!is_plain_char(peer@[i as int]));
            return false;
        }
    }
    true
}

/// The JSON5 text of the configuration of a client that connects to one peer.
pub fn client_config_json5(peer: &str) -> (r: String)
    ensures
        r@ == client_config_text(peer@),
{
    let mut r =
        "{\n            mode: \"client\",\n            connect: {\n                endpoints: [\"".to_owned();
    r.append(peer);
    r.append("\"]\n            }\n        }");
    r
}

/// The configuration of a client that connects to one peer, or the reason why
/// there is none.
///
/// A text that is not plain could leave its quotes and be read as other parts
/// of a configuration, on some of which the parser panics.
pub fn client_config(peer: &str) -> (r: Result<zenoh::Config, String>)
    requires
        is_plain(peer@),
    ensures
        r is Ok <==> is_endpoint(peer@),
        r is Ok ==> in_client_mode(r->Ok_0),
        r is Ok ==> endpoints_held(r->Ok_0).len() == 1 && same_endpoint(
            endpoints_held(r->Ok_0)[0],
            peer@,
        ),
        r is Ok && is_bare(peer@) ==> endpoints_held(r->Ok_0) == seq![peer@],
{
    let text = client_config_json5(peer);
    let r = config_from_json5(text.as_str());
    proof {
        if r is Ok && is_bare(peer@) {
            lemma_bare_endpoint(endpoints_held(r->Ok_0)[0], peer@);
            assert(endpoints_held(r->Ok_0) =~= seq![peer@]);
        }
    }
    r
}

/// The text of a configuration holds the peer whole, in its place.
pub proof fn law_configuration_text_holds_the_peer(peer: Seq<char>)
    ensures
        client_config_text(peer)
            == "{\n            mode: \"client\",\n            connect: {\n                endpoints: [\""@
            + peer + "\"]\n            }\n        }"@,
{
}

/// An endpoint without parameters needs a protocol and an address, with a
/// slash between them, and nothing more; without a slash there is none.
pub proof fn law_endpoint_is_protocol_and_address(protocol: Seq<char>, address: Seq<char>)
    requires
        forall|i: int|
            0 <= i < protocol.len() ==> #[trigger] protocol[i] != '/' && protocol[i] != '?'
                && protocol[i] != '#',
        forall|i: int|
            0 <= i < address.len() ==> #[trigger] address[i] != '?' && address[i] != '#',
    ensures
        is_endpoint(protocol + seq!['/'] + address) <==> protocol.len() > 0 && address.len() > 0,
        !is_endpoint(protocol),
{
    let s = protocol + seq!['/'] + address;
    let n = s.len() as int;
    lemma_next_index_is(s, '/', 0, protocol.len() as int);
    assert forall|i: int| 0 <= i < n implies s[i] != '?' && s[i] != '#' by {
        if i > protocol.len() {
            assert(s[i] == address[i - protocol.len() - 1]);
        }
    }
    lemma_next_index_is(s, '?', 0, n);
    lemma_next_index_is(s, '#', 0, n);
    lemma_next_index_is(protocol, '/', 0, protocol.len() as int);
}

/// Behind a protocol and a slash, metadata and a configuration have to be
/// parameters, each where it is there.
pub proof fn law_endpoint_parameters_have_to_be_parameters(
    protocol: Seq<char>,
    address: Seq<char>,
    meta: Seq<char>,
    config: Seq<char>,
)
    requires
        forall|i: int|
            0 <= i < protocol.len() ==> #[trigger] protocol[i] != '/' && protocol[i] != '?'
                && protocol[i] != '#',
        forall|i: int|
            0 <= i < address.len() ==> #[trigger] address[i] != '?' && address[i] != '#',
        forall|i: int| 0 <= i < meta.len() ==> #[trigger] meta[i] != '#',
        forall|i: int| 0 <= i < config.len() ==> #[trigger] config[i] != '?',
    ensures
        is_endpoint(protocol + seq!['/'] + address + seq!['?'] + meta) <==> protocol.len() > 0
            && is_parameters(meta),
        is_endpoint(protocol + seq!['/'] + address + seq!['#'] + config) <==> protocol.len() > 0
            && is_parameters(config),
        is_endpoint(protocol + seq!['/'] + address + seq!['?'] + meta + seq!['#'] + config)
            <==> protocol.len() > 0 && is_parameters(meta) && is_parameters(config),
{
    let slash = protocol.len() as int;
    let loc = protocol + seq!['/'] + address;
    let k = loc.len() as int;
    lemma_parameters_not_empty(meta);
    lemma_parameters_not_empty(config);
    assert forall|i: int| 0 <= i < k implies loc[i] != '?' && loc[i] != '#' by {
        if i > slash {
            assert(loc[i] == address[i - slash - 1]);
        }
    }
    let a = loc + seq!['?'] + meta;
    assert forall|i: int| 0 <= i < slash implies a[i] != '/' by {
        assert(a[i] == protocol[i]);
    }
    lemma_next_index_is(a, '/', 0, slash);
    assert forall|i: int| 0 <= i < k implies a[i] != '?' by {
        assert(a[i] == loc[i]);
    }
    lemma_next_index_is(a, '?', 0, k);
    assert forall|i: int| 0 <= i < a.len() implies a[i] != '#' by {
        if i < k {
            assert(a[i] == loc[i]);
        } else if i > k {
            assert(a[i] == meta[i - k - 1]);
        }
    }
    lemma_next_index_is(a, '#', 0, a.len() as int);
    assert(a.subrange(k + 1, a.len() as int) =~= meta);

    let b = loc + seq!['#'] + config;
    assert forall|i: int| 0 <= i < slash implies b[i] != '/' by {
        assert(b[i] == protocol[i]);
    }
    lemma_next_index_is(b, '/', 0, slash);
    assert forall|i: int| 0 <= i < k implies b[i] != '#' by {
        assert(b[i] == loc[i]);
    }
    lemma_next_index_is(b, '#', 0, k);
    assert forall|i: int| 0 <= i < b.len() implies b[i] != '?' by {
        if i < k {
            assert(b[i] == loc[i]);
        } else if i > k {
            assert(b[i] == config[i - k - 1]);
        }
    }
    lemma_next_index_is(b, '?', 0, b.len() as int);
    assert(b.subrange(k + 1, b.len() as int) =~= config);

    let c = loc + seq!['?'] + meta + seq!['#'] + config;
    let h = k + 1 + meta.len();
    assert forall|i: int| 0 <= i < slash implies c[i] != '/' by {
        assert(c[i] == protocol[i]);
    }
    lemma_next_index_is(c, '/', 0, slash);
    assert forall|i: int| 0 <= i < k implies c[i] != '?' by {
        assert(c[i] == loc[i]);
    }
    lemma_next_index_is(c, '?', 0, k);
    assert forall|i: int| 0 <= i < h implies c[i] != '#' by {
        if i < k {
            assert(c[i] == loc[i]);
        } else if i > k {
            assert(c[i] == meta[i - k - 1]);
        }
    }
    lemma_next_index_is(c, '#', 0, h);
    assert(c.subrange(k + 1, h) =~= meta);
    assert(c.subrange(h + 1, c.len() as int) =~= config);
}

/// Parameters are not empty.
proof fn lemma_parameters_not_empty(s: Seq<char>)
    ensures
        is_parameters(s) ==> s.len() > 0,
{
    if s.len() == 0 {
        law_first_piece(s, ';', s);
    }
}

/// Which texts are parameters: every entry that is not empty starts with
/// something else than the equals sign, and there is such an entry.
pub proof fn law_parameters_have_keys(entry: Seq<char>, rest: Seq<char>)
    requires
        forall|i: int| 0 <= i < entry.len() ==> entry[i] != ';',
    ensures
        is_parameters(entry) <==> entry.len() > 0 && entry[0] != '=',
        entry.len() == 0 ==> is_parameters(entry + seq![';'] + rest) == is_parameters(rest),
        entry.len() > 0 && entry[0] == '=' ==> !is_parameters(entry + seq![';'] + rest),
        entry.len() > 0 && entry[0] != '=' && is_parameters(rest) ==> is_parameters(
            entry + seq![';'] + rest,
        ),
{
    law_first_piece(entry, ';', rest);
    let one = pieces(entry, ';');
    let all = pieces(entry + seq![';'] + rest, ';');
    let others = pieces(rest, ';');
    assert(one[0] == entry);
    assert(all[0] == entry);
    assert forall|i: int| 0 <= i < others.len() implies #[trigger] others[i] == all[i + 1] by {}
    assert forall|i: int| 1 <= i < all.len() implies #[trigger] all[i] == others[i - 1] by {}
    if exists|i: int| 0 <= i < others.len() && #[trigger] others[i].len() > 0 {
        let i = choose|i: int| 0 <= i < others.len() && #[trigger] others[i].len() > 0;
        assert(all[i + 1].len() > 0);
    }
    if entry.len() == 0 {
        if is_parameters(rest) {
            assert(is_parameters(entry + seq![';'] + rest));
        }
        if is_parameters(entry + seq![';'] + rest) {
            let i = choose|i: int| 0 <= i < all.len() && #[trigger] all[i].len() > 0;
            assert(others[i - 1].len() > 0);
            assert forall|j: int| 0 <= j < others.len() && #[trigger] others[j].len() > 0 implies
                others[j][0] != '=' by {
                assert(all[j + 1].len() > 0);
            }
        }
    }
}

/// What parameters say: an entry gives its key what stands behind the first
/// equals sign; every entry counts once, in whatever order; empty entries
/// count nothing.
pub proof fn law_parameters_are_their_entries(
    key: Seq<char>,
    value: Seq<char>,
    entry: Seq<char>,
    rest: Seq<char>,
)
    requires
        key.len() > 0,
        forall|i: int| 0 <= i < key.len() ==> #[trigger] key[i] != '=' && key[i] != ';',
        forall|i: int| 0 <= i < value.len() ==> value[i] != ';',
        forall|i: int| 0 <= i < entry.len() ==> entry[i] != ';',
    ensures
        parameters(key) == Multiset::singleton((key, Seq::<char>::empty())),
        parameters(key + seq!['='] + value) == Multiset::singleton((key, value)),
        parameters(entry + seq![';'] + rest) == parameters(entry).add(parameters(rest)),
        parameters(Seq::<char>::empty()) == Multiset::<(Seq<char>, Seq<char>)>::empty(),
{
    let none = Seq::<char>::empty();
    let keep = |e: Seq<char>| e.len() > 0;
    let f = |e: Seq<char>| parameter(e);
    let pair = key + seq!['='] + value;
    assert forall|i: int| 0 <= i < pair.len() implies pair[i] != ';' by {
        if i < key.len() {
            assert(pair[i] == key[i]);
        } else if i > key.len() {
            assert(pair[i] == value[i - key.len() - 1]);
        }
    }
    law_first_piece(key, ';', none);
    law_first_piece(pair, ';', none);
    law_first_piece(none, ';', none);
    law_first_piece(entry, ';', rest);
    lemma_next_index_is(key, '=', 0, key.len() as int);
    assert forall|i: int| 0 <= i < key.len() implies pair[i] != '=' by {
        assert(pair[i] == key[i]);
    }
    lemma_next_index_is(pair, '=', 0, key.len() as int);
    assert(pair.take(key.len() as int) =~= key);
    assert(pair.skip(key.len() as int + 1) =~= value);
    lemma_one_parameter(key);
    lemma_one_parameter(pair);
    lemma_one_parameter(none);
    let a = seq![entry];
    let b = pieces(rest, ';');
    Seq::filter_distributes_over_add(a, b, keep);
    let x = a.filter(keep).map_values(f);
    let y = b.filter(keep).map_values(f);
    assert((a.filter(keep) + b.filter(keep)).map_values(f) =~= x + y);
    vstd::seq_lib::lemma_multiset_commutative(x, y);
    lemma_one_parameter(entry);
    law_first_piece(entry, ';', none);
}

/// The parameters of a single entry.
proof fn lemma_one_parameter(entry: Seq<char>)
    requires
        pieces(entry, ';') == seq![entry],
    ensures
        parameters(entry) == if entry.len() > 0 {
            Multiset::singleton(parameter(entry))
        } else {
            Multiset::empty()
        },
{
    reveal_with_fuel(Seq::filter, 2);
    let keep = |e: Seq<char>| e.len() > 0;
    let f = |e: Seq<char>| parameter(e);
    let one = seq![entry];
    assert(one.drop_last() =~= Seq::<Seq<char>>::empty());
    let kept = one.filter(keep).map_values(f);
    let nothing = Seq::<(Seq<char>, Seq<char>)>::empty();
    nothing.to_multiset_ensures();
    assert(nothing.to_multiset() =~= Multiset::empty());
    if entry.len() > 0 {
        assert(kept =~= nothing.push(parameter(entry)));
        vstd::seq_lib::to_multiset_build(nothing, parameter(entry));
        assert(kept.to_multiset() =~= Multiset::singleton(parameter(entry)));
    } else {
        assert(kept =~= nothing);
    }
}

/// An endpoint that says the same as a given one has the given protocol and
/// address in front, letter by letter, and gives the same parameters in
/// metadata and in configuration, none more and none less.
pub proof fn law_same_endpoint_keeps_everything(
    held: Seq<char>,
    locator_text: Seq<char>,
    meta: Seq<char>,
    config: Seq<char>,
)
    requires
        forall|i: int|
            0 <= i < locator_text.len() ==> #[trigger] locator_text[i] != '?' && locator_text[i]
                != '#',
        forall|i: int| 0 <= i < meta.len() ==> #[trigger] meta[i] != '#',
        same_endpoint(held, locator_text + seq!['?'] + meta + seq!['#'] + config),
    ensures
        held.len() > locator_text.len(),
        held.take(locator_text.len() as int) == locator_text,
        metadata(held) == Some(parameters(meta)),
        settings(held) == Some(parameters(config)),
{
    let given = locator_text + seq!['?'] + meta + seq!['#'] + config;
    let k = locator_text.len() as int;
    let h = k + 1 + meta.len();
    assert forall|i: int| 0 <= i < k implies given[i] != '?' by {
        assert(given[i] == locator_text[i]);
    }
    lemma_next_index_is(given, '?', 0, k);
    assert forall|i: int| 0 <= i < h implies given[i] != '#' by {
        if i < k {
            assert(given[i] == locator_text[i]);
        } else if i > k {
            assert(given[i] == meta[i - k - 1]);
        }
    }
    lemma_next_index_is(given, '#', 0, h);
    assert(given.subrange(k + 1, h) =~= meta);
    assert(given.subrange(h + 1, given.len() as int) =~= config);
    assert(locator(given) =~= locator_text);
    lemma_next_index(held, '?', 0);
    lemma_next_index(held, '#', 0);
    assert(locator(held) == locator_text);
    assert(held.take(k) =~= locator(held));
}

/// What is no endpoint, whatever else it holds: a text with a question mark or
/// a hash sign before its first slash, and one whose first hash sign comes
/// before its first question mark.
pub proof fn law_no_endpoint_in_the_wrong_order(s: Seq<char>, at: int, later: int)
    requires
        0 <= at < s.len(),
        (s[at] == '?' || s[at] == '#') && (forall|i: int| 0 <= i < at ==> s[i] != '/') || (at
            < later < s.len() && s[at] == '#' && s[later] == '?' && forall|i: int|
            0 <= i < at ==> s[i] != '?'),
    ensures
        !is_endpoint(s),
{
    lemma_next_index(s, '/', 0);
    lemma_next_index(s, '?', 0);
    lemma_next_index(s, '#', 0);
    let slash = next_index(s, '/', 0);
    let mark = next_index(s, '?', 0);
    let hash = next_index(s, '#', 0);
    if (s[at] == '?' || s[at] == '#') && (forall|i: int| 0 <= i < at ==> s[i] != '/') {
        assert(slash > at);
        if s[at] == '?' {
            assert(mark <= at);
        } else {
            assert(hash <= at);
        }
    } else {
        assert(hash <= at);
        assert(mark <= later);
        assert(mark > at);
    }
}

/// The parts of an endpoint text: what stands before the first question mark
/// or hash sign, what stands between them, and what stands behind the hash
/// sign; a part that is not there is none.
pub proof fn law_parts_of_an_endpoint(loc: Seq<char>, meta: Seq<char>, config: Seq<char>)
    requires
        forall|i: int| 0 <= i < loc.len() ==> #[trigger] loc[i] != '?' && loc[i] != '#',
        forall|i: int| 0 <= i < meta.len() ==> #[trigger] meta[i] != '#',
        forall|i: int| 0 <= i < config.len() ==> #[trigger] config[i] != '?',
    ensures
        locator(loc) == loc && metadata(loc) is None && settings(loc) is None,
        ({
            let a = loc + seq!['?'] + meta;
            locator(a) == loc && metadata(a) == Some(parameters(meta)) && settings(a) is None
        }),
        ({
            let b = loc + seq!['#'] + config;
            locator(b) == loc && metadata(b) is None && settings(b) == Some(parameters(config))
        }),
        ({
            let c = loc + seq!['?'] + meta + seq!['#'] + config;
            locator(c) == loc && metadata(c) == Some(parameters(meta)) && settings(c) == Some(
                parameters(config),
            )
        }),
{
    let k = loc.len() as int;
    lemma_next_index_is(loc, '?', 0, k);
    lemma_next_index_is(loc, '#', 0, k);
    assert(locator(loc) =~= loc);

    let a = loc + seq!['?'] + meta;
    assert forall|i: int| 0 <= i < k implies a[i] != '?' by {
        assert(a[i] == loc[i]);
    }
    lemma_next_index_is(a, '?', 0, k);
    assert forall|i: int| 0 <= i < a.len() implies a[i] != '#' by {
        if i < k {
            assert(a[i] == loc[i]);
        } else if i > k {
            assert(a[i] == meta[i - k - 1]);
        }
    }
    lemma_next_index_is(a, '#', 0, a.len() as int);
    assert(a.subrange(k + 1, a.len() as int) =~= meta);
    assert(locator(a) =~= loc);

    let b = loc + seq!['#'] + config;
    assert forall|i: int| 0 <= i < k implies b[i] != '#' by {
        assert(b[i] == loc[i]);
    }
    lemma_next_index_is(b, '#', 0, k);
    assert forall|i: int| 0 <= i < b.len() implies b[i] != '?' by {
        if i < k {
            assert(b[i] == loc[i]);
        } else if i > k {
            assert(b[i] == config[i - k - 1]);
        }
    }
    lemma_next_index_is(b, '?', 0, b.len() as int);
    assert(b.subrange(k + 1, b.len() as int) =~= config);
    assert(locator(b) =~= loc);

    let c = loc + seq!['?'] + meta + seq!['#'] + config;
    let h = k + 1 + meta.len();
    assert forall|i: int| 0 <= i < k implies c[i] != '?' by {
        assert(c[i] == loc[i]);
    }
    lemma_next_index_is(c, '?', 0, k);
    assert forall|i: int| 0 <= i < h implies c[i] != '#' by {
        if i < k {
            assert(c[i] == loc[i]);
        } else if i > k {
            assert(c[i] == meta[i - k - 1]);
        }
    }
    lemma_next_index_is(c, '#', 0, h);
    assert(c.subrange(k + 1, h) =~= meta);
    assert(c.subrange(h + 1, c.len() as int) =~= config);
    assert(locator(c) =~= loc);
}

/// Two endpoints say the same exactly where all their parts do.
pub proof fn law_same_endpoint_means_same_parts(a: Seq<char>, b: Seq<char>)
    ensures
        same_endpoint(a, b) <==> locator(a) == locator(b) && metadata(a) == metadata(b) && settings(
            a,
        ) == settings(b),
{
}

} // verus!
