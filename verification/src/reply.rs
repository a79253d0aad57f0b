//! The reply to a request that is not answered: a JSON object that names the
//! error and the request.

use vstd::prelude::*;

use crate::text::hex_digit;

verus! {

/// A character inside a JSON string: quotes, backslashes and control
/// characters are escaped, anything else stands for itself.
pub open spec fn escaped_char(c: char) -> Seq<char> {
    if c == '"' {
        seq!['\\', '"']
    } else if c == '\\' {
        seq!['\\', '\\']
    } else if c as int == 8 {
        seq!['\\', 'b']
    } else if c as int == 9 {
        seq!['\\', 't']
    } else if c as int == 10 {
        seq!['\\', 'n']
    } else if c as int == 12 {
        seq!['\\', 'f']
    } else if c as int == 13 {
        seq!['\\', 'r']
    } else if (c as int) < 32 {
        seq!['\\', 'u', '0', '0', hex_digit(c as int / 16), hex_digit(c as int % 16)]
    } else {
        seq![c]
    }
}

/// A text inside a JSON string.
pub open spec fn escaped(s: Seq<char>) -> Seq<char>
    decreases s.len(),
{
    if s.len() == 0 {
        seq![]
    } else {
        escaped_char(s[0]) + escaped(s.drop_first())
    }
}

/// A text as a JSON string.
pub open spec fn json_string(s: Seq<char>) -> Seq<char> {
    seq!['"'] + escaped(s) + seq!['"']
}

/// The compact JSON text of an object of two texts.
pub open spec fn json_object(
    first_key: Seq<char>,
    first: Seq<char>,
    second_key: Seq<char>,
    second: Seq<char>,
) -> Seq<char> {
    seq!['{'] + json_string(first_key) + seq![':'] + json_string(first) + seq![','] + json_string(
        second_key,
    ) + seq![':'] + json_string(second) + seq!['}']
}

/// The object with the two given fields, written by `serde_json`: the fields
/// are put into a `serde_json::Map` with `insert`, and `to_string` of the
/// `serde_json::Value` that holds it gives compact JSON, the fields in the
/// order of their keys. What is claimed is that text, character by character.
#[verifier::external_body]
pub(crate) fn object_text(first_key: &str, first: &str, second_key: &str, second: &str) -> (r:
    String)
    requires
        first_key@.len() > 0,
        second_key@.len() > 0,
        (first_key@[0] as int) < second_key@[0] as int,
    ensures
        r@ == json_object(first_key@, first@, second_key@, second@),
{
    let mut object = serde_json::Map::new();
    object.insert(first_key.to_string(), serde_json::Value::String(first.to_string()));
    object.insert(second_key.to_string(), serde_json::Value::String(second.to_string()));
    serde_json::Value::Object(object).to_string()
}

/// The reply that tells why the request of the given ID is not answered.
pub open spec fn error_reply_text(error: Seq<char>, request_id: Seq<char>) -> Seq<char> {
    json_object("error"@, error, "request_id"@, request_id)
}

/// The reply that tells why a request is not answered.
pub fn error_reply(error: &str, request_id: &str) -> (r: String)
    ensures
        r@ == error_reply_text(error@, request_id@),
        r@ == json_object("error"@, error@, "request_id"@, request_id@),
{
    proof {
        reveal_strlit("error");
        reveal_strlit("request_id");
    }
    object_text("error", error, "request_id", request_id)
}

/// Two characters whose escaped forms begin the same text are the same.
proof fn lemma_escaped_char_is_prefix_free(a: char, b: char, x: Seq<char>, y: Seq<char>)
    requires
        escaped_char(a) + x == escaped_char(b) + y,
    ensures
        a == b,
        x == y,
{
    let ea = escaped_char(a);
    let eb = escaped_char(b);
    let s = ea + x;
    let t = eb + y;
    assert(s[0] == ea[0]);
    assert(t[0] == eb[0]);
    if ea.len() > 1 && eb.len() > 1 {
        assert(s[1] == ea[1]);
        assert(t[1] == eb[1]);
        if ea.len() == 6 && eb.len() == 6 {
            assert(s[4] == ea[4]);
            assert(t[4] == eb[4]);
            assert(s[5] == ea[5]);
            assert(t[5] == eb[5]);
        }
    }
    assert(a == b);
    assert(s.skip(ea.len() as int) =~= x);
    assert(t.skip(eb.len() as int) =~= y);
}

/// A JSON string ends where its closing quote stands: the text inside, and
/// what follows, can be read in one way only.
proof fn lemma_escaped_reads_one_way(a: Seq<char>, b: Seq<char>, x: Seq<char>, y: Seq<char>)
    requires
        escaped(a) + seq!['"'] + x == escaped(b) + seq!['"'] + y,
    ensures
        a == b,
        x == y,
    decreases a.len(),
{
    let s = escaped(a) + seq!['"'] + x;
    let t = escaped(b) + seq!['"'] + y;
    if a.len() > 0 && b.len() > 0 {
        let ra = escaped(a.drop_first()) + seq!['"'] + x;
        let rb = escaped(b.drop_first()) + seq!['"'] + y;
        assert(s =~= escaped_char(a[0]) + ra);
        assert(t =~= escaped_char(b[0]) + rb);
        lemma_escaped_char_is_prefix_free(a[0], b[0], ra, rb);
        lemma_escaped_reads_one_way(a.drop_first(), b.drop_first(), x, y);
        assert(a =~= seq![a[0]] + a.drop_first());
        assert(b =~= seq![b[0]] + b.drop_first());
    } else if a.len() > 0 {
        assert(s[0] == escaped_char(a[0])[0]);
        assert(t[0] == '"');
    } else if b.len() > 0 {
        assert(t[0] == escaped_char(b[0])[0]);
        assert(s[0] == '"');
    } else {
        assert(s.skip(1) =~= x);
        assert(t.skip(1) =~= y);
        assert(a =~= b);
    }
}

/// What stands in a reply before the error.
spec fn reply_head() -> Seq<char> {
    seq!['{'] + json_string("error"@) + seq![':', '"']
}

/// What stands in a reply between the error and the request ID.
spec fn reply_middle() -> Seq<char> {
    seq![','] + json_string("request_id"@) + seq![':', '"']
}

/// The parts of a reply, in order.
proof fn lemma_reply_parts(error: Seq<char>, id: Seq<char>)
    ensures
        error_reply_text(error, id) == reply_head() + (escaped(error) + seq!['"'] + (reply_middle()
            + (escaped(id) + seq!['"'] + seq!['}']))),
{
    assert(error_reply_text(error, id) =~= reply_head() + (escaped(error) + seq!['"'] + (
    reply_middle() + (escaped(id) + seq!['"'] + seq!['}']))));
}

/// What follows the same beginning of the same text is the same.
proof fn lemma_same_rest(head: Seq<char>, x: Seq<char>, y: Seq<char>)
    requires
        head + x == head + y,
    ensures
        x == y,
{
    assert((head + x).skip(head.len() as int) =~= x);
    assert((head + y).skip(head.len() as int) =~= y);
}

/// A reply says what it says: whatever characters the error and the request ID
/// hold, two replies are the same text only if they name the same error and
/// the same request.
pub proof fn law_error_reply_reads_one_way(
    error_a: Seq<char>,
    id_a: Seq<char>,
    error_b: Seq<char>,
    id_b: Seq<char>,
)
    requires
        error_reply_text(error_a, id_a) == error_reply_text(error_b, id_b),
    ensures
        error_a == error_b,
        id_a == id_b,
{
    lemma_reply_parts(error_a, id_a);
    lemma_reply_parts(error_b, id_b);
    let end_a = escaped(id_a) + seq!['"'] + seq!['}'];
    let end_b = escaped(id_b) + seq!['"'] + seq!['}'];
    lemma_same_rest(
        reply_head(),
        escaped(error_a) + seq!['"'] + (reply_middle() + end_a),
        escaped(error_b) + seq!['"'] + (reply_middle() + end_b),
    );
    lemma_escaped_reads_one_way(
        error_a,
        error_b,
        reply_middle() + end_a,
        reply_middle() + end_b,
    );
    lemma_same_rest(reply_middle(), end_a, end_b);
    lemma_escaped_reads_one_way(id_a, id_b, seq!['}'], seq!['}']);
}

/// A text is escaped character by character, in order, and no character is
/// left out.
pub proof fn law_every_character_is_escaped(s: Seq<char>)
    ensures
        escaped(s) == s.map_values(|c: char| escaped_char(c)).flatten(),
    decreases s.len(),
{
    let f = |c: char| escaped_char(c);
    let mapped = s.map_values(f);
    if s.len() > 0 {
        law_every_character_is_escaped(s.drop_first());
        assert(mapped.drop_first() =~= s.drop_first().map_values(f));
        assert(mapped.first() == escaped_char(s[0]));
    } else {
        assert(mapped.flatten() =~= Seq::<char>::empty());
    }
}

/// How a character is escaped: a quote and a backslash get a backslash in
/// front, a control character is written by its short name or its code, and
/// anything else is left as it is.
pub proof fn law_what_is_escaped(c: char)
    ensures
        c == '"' || c == '\\' ==> escaped_char(c) == seq!['\\', c],
        c as int >= 32 && c != '"' && c != '\\' ==> escaped_char(c) == seq![c],
        c as int == 8 ==> escaped_char(c) == seq!['\\', 'b'],
        c as int == 9 ==> escaped_char(c) == seq!['\\', 't'],
        c as int == 10 ==> escaped_char(c) == seq!['\\', 'n'],
        c as int == 12 ==> escaped_char(c) == seq!['\\', 'f'],
        c as int == 13 ==> escaped_char(c) == seq!['\\', 'r'],
        (c as int) < 32 && c as int != 8 && c as int != 9 && c as int != 10 && c as int != 12
            && c as int != 13 ==> escaped_char(c) == "\\u00"@ + seq![
            "0123456789abcdef"@[c as int / 16],
            "0123456789abcdef"@[c as int % 16],
        ],
{
    reveal_strlit("\\u00");
    reveal_strlit("0123456789abcdef");
    if (c as int) < 32 && c as int != 8 && c as int != 9 && c as int != 10 && c as int != 12
        && c as int != 13 {
        assert(escaped_char(c) =~= "\\u00"@ + seq![
            "0123456789abcdef"@[c as int / 16],
            "0123456789abcdef"@[c as int % 16],
        ]);
    }
}

/// The text of a reply: the error and the request ID, whole, each in its own
/// field.
pub proof fn law_reply_has_both_fields(error: Seq<char>, request_id: Seq<char>)
    ensures
        error_reply_text(error, request_id) == "{\"error\":\""@ + escaped(error)
            + "\",\"request_id\":\""@ + escaped(request_id) + "\"}"@,
{
    reveal_strlit("error");
    reveal_strlit("request_id");
    reveal_strlit("{\"error\":\"");
    reveal_strlit("\",\"request_id\":\"");
    reveal_strlit("\"}");
    lemma_unescaped("error"@);
    lemma_unescaped("request_id"@);
    lemma_reply_parts(error, request_id);
    assert(reply_head() =~= "{\"error\":\""@);
    assert(seq!['"'] + reply_middle() =~= "\",\"request_id\":\""@);
    assert(seq!['"'] + seq!['}'] =~= "\"}"@);
    assert(error_reply_text(error, request_id) =~= "{\"error\":\""@ + escaped(error)
        + "\",\"request_id\":\""@ + escaped(request_id) + "\"}"@);
}

/// A text in which nothing has to be escaped stays as it is.
proof fn lemma_unescaped(s: Seq<char>)
    requires
        forall|i: int|
            0 <= i < s.len() ==> s[i] as int >= 32 && #[trigger] s[i] != '"' && s[i] != '\\',
    ensures
        escaped(s) == s,
    decreases s.len(),
{
    if s.len() > 0 {
        lemma_unescaped(s.drop_first());
        assert(s =~= seq![s[0]] + s.drop_first());
    }
}

} // verus!
