//! Weight shards: the index that a message key carries, and the file name
//! under which a shard is stored.

use vstd::prelude::*;
use vstd::string::*;

use crate::text::{chars_of, parse_u32, text_between, three_digit_text};
use crate::text::{
    all_digits, decimal, digits_value, is_digit, law_decimal_notation,
    law_digits_count_powers_of_ten, law_numbers_are_read_by_value,
    law_padding_puts_zeros_in_front, lemma_padded_decimal_reads_back, parsed_u32, zero_padded,
};

verus! {

/// Whether `pat` stands in `s` at position `at`.
pub open spec fn occurs_at(s: Seq<char>, pat: Seq<char>, at: int) -> bool {
    0 <= at && at + pat.len() <= s.len() && s.subrange(at, at + pat.len()) == pat
}

/// The last position, at most `limit`, at which `pat` stands in `s`; `None`
/// where there is none.
pub open spec fn last_occurrence(s: Seq<char>, pat: Seq<char>, limit: int) -> Option<int>
    decreases limit + 1,
{
    if limit < 0 {
        None
    } else if occurs_at(s, pat, limit) {
        Some(limit)
    } else {
        last_occurrence(s, pat, limit - 1)
    }
}

/// Where the run of decimal digits that starts at `from` ends.
pub open spec fn digit_run_end(s: Seq<char>, from: int) -> int
    decreases s.len() - from,
{
    if 0 <= from < s.len() && is_digit(s[from]) {
        digit_run_end(s, from + 1)
    } else {
        from
    }
}

/// The shard index in a message key: the digits that follow the last
/// occurrence of `shard-`; `None` where it does not occur, or where no digit
/// follows its last occurrence.
pub open spec fn shard_index(path: Seq<char>) -> Option<Seq<char>> {
    match last_occurrence(path, "shard-"@, path.len() as int) {
        Some(at) => {
            let start = at + "shard-"@.len();
            let end = digit_run_end(path, start);
            if end > start {
                Some(path.subrange(start, end))
            } else {
                None
            }
        },
        None => None,
    }
}

/// The number of the shard that an index text names. A text that is no number
/// of 32 bits names shard zero.
pub open spec fn shard_number(index: Seq<char>) -> u32 {
    match parsed_u32(index) {
        Some(n) => n,
        None => 0,
    }
}

/// The file name of a shard: its number, padded with zeros to three digits.
pub open spec fn shard_file(n: u32) -> Seq<char> {
    "shard-"@ + zero_padded(decimal(n as nat), 3) + ".safetensors"@
}

/// What `last_occurrence` finds.
pub proof fn lemma_last_occurrence(s: Seq<char>, pat: Seq<char>, limit: int)
    ensures
        match last_occurrence(s, pat, limit) {
            Some(at) => at <= limit && occurs_at(s, pat, at) && forall|j: int|
                at < j <= limit ==> !occurs_at(s, pat, j),
            None => forall|j: int| j <= limit ==> !occurs_at(s, pat, j),
        },
    decreases limit + 1,
{
    if limit >= 0 && !occurs_at(s, pat, limit) {
        lemma_last_occurrence(s, pat, limit - 1);
    }
}

/// A run of digits ends where the first other character stands.
pub proof fn lemma_digit_run_end(s: Seq<char>, from: int, end: int)
    requires
        0 <= from <= end <= s.len(),
        forall|i: int| from <= i < end ==> is_digit(#[trigger] s[i]),
        end < s.len() ==> !is_digit(s[end]),
    ensures
        digit_run_end(s, from) == end,
    decreases end - from,
{
    if from < end {
        assert(is_digit(s[from]));
        lemma_digit_run_end(s, from + 1, end);
    }
}

/// The last position at which `pat` stands in `s`.
fn rfind(s: &Vec<char>, pat: &Vec<char>) -> (r: Option<usize>)
    ensures
        match r {
            Some(at) => last_occurrence(s@, pat@, s@.len() as int) == Some(at as int),
            None => last_occurrence(s@, pat@, s@.len() as int) is None,
        },
{
    let n: usize = s.len();
    let m: usize = pat.len();
    let mut limit: usize = n;
    loop
        invariant
            n == s@.len(),
            m == pat@.len(),
            limit <= n,
            last_occurrence(s@, pat@, n as int) == last_occurrence(s@, pat@, limit as int),
        decreases limit,
    {
        if m <= n - limit {
            let mut k: usize = 0;
            while k < m && s[limit + k] == pat[k]
                invariant
                    n == s@.len(),
                    m == pat@.len(),
                    limit <= n,
                    m <= n - limit,
                    k <= m,
                    forall|j: int| 0 <= j < k ==> s@[limit + j] == pat@[j],
                ensures
                    k <= m,
                    forall|j: int| 0 <= j < k ==> s@[limit + j] == pat@[j],
                    k < m ==> s@[limit + k] != pat@[k as int],
                decreases m - k,
            {
                k = k + 1;
            }
            if k == m {
                assert(s@.subrange(limit as int, limit + m) =~= pat@);
                return Some(limit);
            }
            assert(s@.subrange(limit as int, limit + m)[k as int] != pat@[k as int]);
        }
        assert(!occurs_at(s@, pat@, limit as int));
        if limit == 0 {
            assert(last_occurrence(s@, pat@, -1) is None);
            return None;
        }
        limit = limit - 1;
    }
}

/// Extract the shard index from a message key of the form
/// `barm/model/{model_name}/weights/shard-{number}`.
pub fn extract_shard_index(path: &str) -> (r: Option<String>)
    ensures
        match r {
            Some(index) => shard_index(path@) == Some(index@),
            None => shard_index(path@) is None,
        },
{
    let chars = chars_of(path);
    let pat = chars_of("shard-");
    match rfind(&chars, &pat) {
        Some(at) => {
            proof {
                lemma_last_occurrence(path@, "shard-"@, path@.len() as int);
            }
            let n: usize = chars.len();
            assert(occurs_at(chars@, pat@, at as int));
            let start: usize = at + pat.len();
            let mut end: usize = start;
            while end < n && '0' <= chars[end] && chars[end] <= '9'
                invariant
                    n == chars@.len(),
                    start <= end <= n,
                    forall|i: int| start <= i < end ==> is_digit(#[trigger] chars@[i]),
                ensures
                    start <= end <= n,
                    forall|i: int| start <= i < end ==> is_digit(#[trigger] chars@[i]),
                    end < n ==> !is_digit(chars@[end as int]),
                decreases n - end,
            {
                end = end + 1;
            }
            proof {
                lemma_digit_run_end(path@, start as int, end as int);
            }
            if end > start {
                Some(text_between(&chars, start, end))
            } else {
                None
            }
        },
        None => None,
    }
}

/// The number of the shard that an index text names.
pub fn shard_number_of(index: &str) -> (r: u32)
    ensures
        r == shard_number(index@),
        parsed_u32(index@) is Some ==> r == parsed_u32(index@)->0,
        parsed_u32(index@) is None ==> r == 0,
{
    match parse_u32(index) {
        Some(n) => n,
        None => 0,
    }
}

/// The file name of a shard.
pub fn shard_file_name(n: u32) -> (r: String)
    ensures
        r@ == shard_file(n),
{
    let mut r = "shard-".to_owned();
    let number = three_digit_text(n);
    r.append(number.as_str());
    r.append(".safetensors");
    r
}

/// A shard published under the key that its number gives is found again: for
/// every number, and whatever the key has in front, the index that is read
/// from the key names that number.
pub proof fn law_published_shard_is_identified(prefix: Seq<char>, n: u32)
    ensures
        shard_index(prefix + "shard-"@ + zero_padded(decimal(n as nat), 3)) == Some(
            zero_padded(decimal(n as nat), 3),
        ),
        shard_number(zero_padded(decimal(n as nat), 3)) == n,
{
    reveal_strlit("shard-");
    let pat = "shard-"@;
    let d = zero_padded(decimal(n as nat), 3);
    let path = prefix + pat + d;
    lemma_padded_decimal_reads_back(n, 3);
    assert(path.subrange(prefix.len() as int, (prefix.len() + pat.len()) as int) =~= pat);
    assert(occurs_at(path, pat, prefix.len() as int));
    lemma_last_occurrence(path, pat, path.len() as int);
    let at = last_occurrence(path, pat, path.len() as int)->0;
    if at > prefix.len() {
        // the last character of a later occurrence would be one of the digits,
        // or it would overlap the hyphen of the first
        let hit = path.subrange(at, at + pat.len());
        let k = at + 5 - prefix.len() - pat.len();
        assert(hit[5] == '-');
        assert(path[at + 5] == d[k]);
        assert(is_digit(d[k]));
    }
    let start = prefix.len() + pat.len();
    assert forall|i: int| start <= i < path.len() implies is_digit(#[trigger] path[i]) by {
        assert(path[i] == d[i - start]);
        assert(is_digit(d[i - start]));
    }
    lemma_digit_run_end(path, start as int, path.len() as int);
    assert(path.subrange(start as int, path.len() as int) =~= d);
}

/// No two shards share a file: different numbers have different file names.
pub proof fn law_shard_files_are_distinct(a: u32, b: u32)
    requires
        a != b,
    ensures
        shard_file(a) != shard_file(b),
{
    let da = zero_padded(decimal(a as nat), 3);
    let db = zero_padded(decimal(b as nat), 3);
    lemma_padded_decimal_reads_back(a, 3);
    lemma_padded_decimal_reads_back(b, 3);
    if shard_file(a) == shard_file(b) {
        let p = "shard-"@.len() as int;
        let t = ".safetensors"@.len() as int;
        assert(shard_file(a).len() == p + da.len() + t);
        assert(shard_file(b).len() == p + db.len() + t);
        assert(shard_file(a).subrange(p, p + da.len()) =~= da);
        assert(shard_file(b).subrange(p, p + db.len()) =~= db);
    }
}

/// The index in a key is the whole row of digits behind the last `shard-`:
/// whatever stands in front, however long the row is, and whatever follows it,
/// as long as no digit follows and no other `shard-` does. Where no digit
/// stands there, there is no index.
pub proof fn law_index_is_the_digits_behind_the_last_shard(
    prefix: Seq<char>,
    digits: Seq<char>,
    suffix: Seq<char>,
)
    requires
        forall|i: int| 0 <= i < digits.len() ==> '0' <= #[trigger] digits[i] && digits[i] <= '9',
        suffix.len() > 0 ==> suffix[0] < '0' || suffix[0] > '9',
        forall|i: int|
            0 <= i <= suffix.len() - 6 ==> #[trigger] suffix.subrange(i, i + 6) != "shard-"@,
    ensures
        digits.len() > 0 ==> shard_index(prefix + "shard-"@ + digits + suffix) == Some(digits),
        digits.len() == 0 ==> shard_index(prefix + "shard-"@ + digits + suffix) is None,
{
    reveal_strlit("shard-");
    let pat = "shard-"@;
    let path = prefix + pat + digits + suffix;
    let first = prefix.len() as int;
    let start = first + 6;
    let stop = start + digits.len();
    assert(path.subrange(first, start) =~= pat);
    assert(occurs_at(path, pat, first));
    lemma_last_occurrence(path, pat, path.len() as int);
    let at = last_occurrence(path, pat, path.len() as int)->0;
    if at > first {
        let hit = path.subrange(at, at + 6);
        assert(hit == pat);
        assert(pat.len() == 6 && pat[0] == 's');
        assert(occurs_at(path, pat, at));
        assert(path[at] == hit[0]);
        if at < start {
            assert(path[at] == pat[at - first]);
        } else if at < stop {
            assert(path[at] == digits[at - start]);
        } else {
            assert(suffix.subrange(at - stop, at - stop + 6) =~= hit);
        }
    }
    assert(at == first);
    assert forall|i: int| start <= i < stop implies is_digit(#[trigger] path[i]) by {
        assert(path[i] == digits[i - start]);
    }
    if stop < path.len() {
        assert(path[stop] == suffix[0]);
    }
    lemma_digit_run_end(path, start, stop);
    assert(path.subrange(start, stop) =~= digits);
}

/// A key in which `shard-` does not occur has no index.
pub proof fn law_no_index_without_shard(path: Seq<char>)
    requires
        forall|i: int| 0 <= i <= path.len() - 6 ==> #[trigger] path.subrange(i, i + 6) != "shard-"@,
    ensures
        shard_index(path) is None,
{
    reveal_strlit("shard-");
    lemma_last_occurrence(path, "shard-"@, path.len() as int);
}

/// A row of digits names the shard of its value, padded or not, however long
/// it is; a value that 32 bits cannot hold names shard zero, and so does a
/// text that is no number.
pub proof fn law_index_names_the_shard_of_its_value(index: Seq<char>)
    ensures
        ({
            let digits = index.len() > 0 && forall|i: int|
                0 <= i < index.len() ==> '0' <= #[trigger] index[i] && index[i] <= '9';
            &&& digits && digits_value(index) <= u32::MAX ==> shard_number(index) == digits_value(
                index,
            )
            &&& digits && digits_value(index) > u32::MAX ==> shard_number(index) == 0
            &&& !digits && (index.len() == 0 || index[0] != '+') ==> shard_number(index) == 0
            &&& digits ==> shard_number(seq!['+'] + index) == shard_number(index)
            &&& !digits ==> shard_number(seq!['+'] + index) == 0
        }),
{
    law_numbers_are_read_by_value(index);
    if index.len() > 0 && forall|i: int|
        0 <= i < index.len() ==> '0' <= #[trigger] index[i] && index[i] <= '9' {
        law_digits_count_powers_of_ten(index, 0);
    }
}

/// The file name of a shard has its number in decimal between `shard-` and
/// `.safetensors`: all its digits, and zeros in front only up to three
/// characters.
pub proof fn law_shard_file_has_the_number(n: u32)
    ensures
        ({
            let name = shard_file(n);
            let number = name.subrange(6, name.len() - 12);
            &&& name.len() >= 21
            &&& name.take(6) == "shard-"@
            &&& name.skip(name.len() - 12) == ".safetensors"@
            &&& forall|i: int|
                0 <= i < number.len() ==> '0' <= #[trigger] number[i] && number[i] <= '9'
            &&& digits_value(number) == n
            &&& number.len() > 3 ==> number[0] != '0'
        }),
{
    reveal_strlit("shard-");
    reveal_strlit(".safetensors");
    let d = decimal(n as nat);
    let padded = zero_padded(d, 3);
    law_decimal_notation(n as nat);
    law_padding_puts_zeros_in_front(d, 3);
    lemma_padded_decimal_reads_back(n, 3);
    let name = shard_file(n);
    assert(name.take(6) =~= "shard-"@);
    assert(name.skip(name.len() - 12) =~= ".safetensors"@);
    assert(name.subrange(6, name.len() - 12) =~= padded);
    assert forall|i: int| 0 <= i < padded.len() implies '0' <= #[trigger] padded[i] && padded[i]
        <= '9' by {
        assert(is_digit(padded[i]));
    }
    law_numbers_are_read_by_value(padded);
    law_digits_count_powers_of_ten(padded, 0);
    if padded.len() > 3 {
        assert(padded =~= d);
    }
}

} // verus!
