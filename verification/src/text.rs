//! Text helpers: the mathematical meaning of the formats that the worker
//! reads and writes, and the functions that produce and read them.

use vstd::arithmetic::power::pow;
use vstd::prelude::*;
use vstd::string::*;

verus! {

/// `String::push` appends the character to the end of the string.
pub assume_specification[ String::push ](s: &mut String, c: char)
    ensures
        final(s)@ == old(s)@.push(c),
;

/// The characters of a text, one by one.
pub fn chars_of(s: &str) -> (r: Vec<char>)
    ensures
        r@ == s@,
{
    let mut r: Vec<char> = Vec::new();
    for c in it: s.chars()
        invariant
            it.seq() == s@,
            r@ == s@.take(it.index() as int),
    {
        r.push(c);
        assert(s@.take(it.index() + 1) =~= s@.take(it.index() as int).push(c));
    }
    assert(s@.take(s@.len() as int) =~= s@);
    r
}

/// The text made of the characters `chars[from..to]`.
pub fn text_between(chars: &Vec<char>, from: usize, to: usize) -> (r: String)
    requires
        from <= to <= chars@.len(),
    ensures
        r@ == chars@.subrange(from as int, to as int),
{
    let mut r = String::new();
    for i in from..to
        invariant
            from <= to <= chars@.len(),
            r@ == chars@.subrange(from as int, i as int),
    {
        r.push(chars[i]);
        assert(chars@.subrange(from as int, i + 1) =~= chars@.subrange(from as int, i as int).push(chars@[i as int]));
    }
    r
}

/// Where `c` first occurs in `s` at or after `from`, or the length of `s`.
pub open spec fn next_index(s: Seq<char>, c: char, from: int) -> int
    decreases s.len() - from,
{
    if from >= s.len() || s[from] == c {
        from
    } else {
        next_index(s, c, from + 1)
    }
}

/// The pieces of `s` between the occurrences of `sep`, the empty ones included.
pub open spec fn pieces(s: Seq<char>, sep: char) -> Seq<Seq<char>> {
    pieces_from(s, sep, 0)
}

/// The pieces of the part of `s` that starts at `from`.
pub open spec fn pieces_from(s: Seq<char>, sep: char, from: int) -> Seq<Seq<char>>
    decreases s.len() - from,
    when 0 <= from <= s.len()
    via pieces_from_decreases
{
    let end = next_index(s, sep, from);
    if end >= s.len() {
        seq![s.subrange(from, s.len() as int)]
    } else {
        seq![s.subrange(from, end)] + pieces_from(s, sep, end + 1)
    }
}

#[via_fn]
proof fn pieces_from_decreases(s: Seq<char>, sep: char, from: int) {
    lemma_next_index(s, sep, from);
}

/// What `next_index` finds: a stop at or after `from`, with no `c` before it.
pub proof fn lemma_next_index(s: Seq<char>, c: char, from: int)
    requires
        0 <= from <= s.len(),
    ensures
        from <= next_index(s, c, from) <= s.len(),
        next_index(s, c, from) < s.len() ==> s[next_index(s, c, from)] == c,
        forall|i: int| from <= i < next_index(s, c, from) ==> s[i] != c,
    decreases s.len() - from,
{
    if from < s.len() && s[from] != c {
        lemma_next_index(s, c, from + 1);
    }
}

/// The first stop is the only place that `next_index` can name.
pub proof fn lemma_next_index_is(s: Seq<char>, c: char, from: int, at: int)
    requires
        0 <= from <= at <= s.len(),
        at < s.len() ==> s[at] == c,
        forall|i: int| from <= i < at ==> s[i] != c,
    ensures
        next_index(s, c, from) == at,
{
    lemma_next_index(s, c, from);
}

/// Splits a text at every occurrence of `sep`.
pub fn split_on(s: &str, sep: char) -> (r: Vec<String>)
    ensures
        r@.map_values(|t: String| t@) == pieces(s@, sep),
{
    let chars = chars_of(s);
    let n: usize = chars.len();
    let mut r: Vec<String> = Vec::new();
    let mut start: usize = 0;
    let mut i: usize = 0;
    let ghost done = Seq::<Seq<char>>::empty();
    assert(r@.map_values(|t: String| t@) =~= done);
    assert(done + pieces_from(chars@, sep, 0) =~= pieces(s@, sep));
    while i < n
        invariant
            chars@ == s@,
            n == chars@.len(),
            0 <= start <= i <= n,
            forall|j: int| start <= j < i ==> chars@[j] != sep,
            r@.map_values(|t: String| t@) == done,
            done + pieces_from(chars@, sep, start as int) == pieces(s@, sep),
        decreases n - i,
    {
        if chars[i] == sep {
            let piece = text_between(&chars, start, i);
            proof {
                lemma_next_index_is(chars@, sep, start as int, i as int);
                let rest = pieces_from(chars@, sep, i + 1);
                assert(pieces_from(chars@, sep, start as int) == seq![piece@] + rest);
                assert(done + (seq![piece@] + rest) =~= done.push(piece@) + rest);
                assert(r@.push(piece).map_values(|t: String| t@) =~= done.push(piece@));
                done = done.push(piece@);
            }
            r.push(piece);
            start = i + 1;
        }
        i = i + 1;
    }
    let piece = text_between(&chars, start, n);
    proof {
        lemma_next_index_is(chars@, sep, start as int, n as int);
        assert(done + seq![piece@] =~= done.push(piece@));
        assert(r@.push(piece).map_values(|t: String| t@) =~= done.push(piece@));
    }
    r.push(piece);
    r
}

/// The decimal digit of value `d`.
pub open spec fn digit(d: int) -> char {
    (48 + d) as char
}

/// Whether `c` is one of `0` to `9`.
pub open spec fn is_digit(c: char) -> bool {
    48 <= c as int <= 57
}

/// Whether every character of `s` is a decimal digit.
pub open spec fn all_digits(s: Seq<char>) -> bool {
    forall|i: int| 0 <= i < s.len() ==> is_digit(#[trigger] s[i])
}

/// The number that a row of decimal digits stands for.
pub open spec fn digits_value(s: Seq<char>) -> int
    decreases s.len(),
{
    if s.len() == 0 {
        0
    } else {
        10 * digits_value(s.drop_last()) + (s.last() as int - 48)
    }
}

/// The decimal notation of `n`, without leading zeros.
pub open spec fn decimal(n: nat) -> Seq<char>
    decreases n,
{
    if n < 10 {
        seq![digit(n as int)]
    } else {
        decimal(n / 10).push(digit((n % 10) as int))
    }
}

/// `s`, with as many zeros in front as it lacks to `width` characters.
pub open spec fn zero_padded(s: Seq<char>, width: nat) -> Seq<char> {
    zeros((width - s.len()) as int) + s
}

/// A row of `n` zeros; none where `n` is not positive.
pub open spec fn zeros(n: int) -> Seq<char> {
    Seq::new(if n > 0 { n as nat } else { 0 }, |i: int| '0')
}

/// The number that a text names: an optional plus sign, then decimal digits
/// only, at least one, of a value that 32 bits can hold.
pub open spec fn parsed_u32(s: Seq<char>) -> Option<u32> {
    let body = if s.len() > 0 && s[0] == '+' {
        s.drop_first()
    } else {
        s
    };
    if body.len() > 0 && all_digits(body) && digits_value(body) <= u32::MAX {
        Some(digits_value(body) as u32)
    } else {
        None
    }
}

/// A row of digits stands for no negative number, and no part of it that
/// starts at the front stands for more than the whole.
pub proof fn lemma_digits_value_prefix(s: Seq<char>, k: int)
    requires
        all_digits(s),
        0 <= k <= s.len(),
    ensures
        0 <= digits_value(s.take(k)) <= digits_value(s),
    decreases s.len(),
{
    if s.len() == 0 {
        assert(s.take(k) =~= s);
    } else {
        let front = s.drop_last();
        assert(is_digit(s[s.len() - 1]));
        assert forall|i: int| 0 <= i < front.len() implies is_digit(#[trigger] front[i]) by {
            assert(front[i] == s[i]);
        }
        if k == s.len() {
            assert(s.take(k) =~= s);
            lemma_digits_value_prefix(front, 0);
        } else {
            assert(s.take(k) =~= front.take(k));
            lemma_digits_value_prefix(front, k);
        }
    }
}

/// Zeros in front do not change what a row of digits stands for.
pub proof fn lemma_leading_zeros(n: int, s: Seq<char>)
    ensures
        digits_value(zeros(n) + s) == digits_value(s),
    decreases s.len(), if n > 0 { n } else { 0 },
{
    if s.len() > 0 {
        lemma_leading_zeros(n, s.drop_last());
        assert((zeros(n) + s).drop_last() =~= zeros(n) + s.drop_last());
    } else if n > 0 {
        lemma_leading_zeros(n - 1, s);
        assert(zeros(n) + s =~= (zeros(n - 1) + s).push('0'));
        assert((zeros(n - 1) + s).push('0').drop_last() =~= zeros(n - 1) + s);
    } else {
        assert(zeros(n) + s =~= s);
    }
}

/// The decimal notation of a number is a row of digits that stands for it.
pub proof fn lemma_decimal(n: nat)
    ensures
        decimal(n).len() > 0,
        all_digits(decimal(n)),
        digits_value(decimal(n)) == n,
    decreases n,
{
    if n < 10 {
        reveal_with_fuel(digits_value, 2);
        assert(decimal(n).drop_last() =~= Seq::<char>::empty());
    } else {
        lemma_decimal(n / 10);
        let front = decimal(n / 10);
        let d = digit((n % 10) as int);
        assert(front.push(d).drop_last() =~= front);
        assert forall|i: int| 0 <= i < front.push(d).len() implies is_digit(
            #[trigger] front.push(d)[i],
        ) by {
            if i < front.len() {
                assert(front.push(d)[i] == front[i]);
            }
        }
    }
}

/// Padded decimal notation is read back as the number that was written.
pub proof fn lemma_padded_decimal_reads_back(n: u32, width: nat)
    ensures
        all_digits(zero_padded(decimal(n as nat), width)),
        zero_padded(decimal(n as nat), width).len() > 0,
        parsed_u32(zero_padded(decimal(n as nat), width)) == Some(n),
{
    let d = decimal(n as nat);
    let s = zero_padded(d, width);
    lemma_decimal(n as nat);
    lemma_leading_zeros(width - d.len(), d);
    let z = zeros(width - d.len());
    assert forall|i: int| 0 <= i < s.len() implies is_digit(#[trigger] s[i]) by {
        if i < z.len() {
            assert(s[i] == '0');
        } else {
            assert(s[i] == d[i - z.len()]);
        }
    }
    assert(is_digit(s[0]));
}

/// Writes a number in decimal.
pub fn decimal_text(n: u32) -> (r: String)
    ensures
        r@ == decimal(n as nat),
    decreases n,
{
    if n < 10 {
        let mut r = String::new();
        r.push((48u8 + n as u8) as char);
        assert(r@ =~= decimal(n as nat));
        r
    } else {
        let mut r = decimal_text(n / 10);
        r.push((48u8 + (n % 10) as u8) as char);
        r
    }
}

/// Writes a number in decimal, padded with zeros to three characters.
pub fn three_digit_text(n: u32) -> (r: String)
    ensures
        r@ == zero_padded(decimal(n as nat), 3),
{
    let body = decimal_text(n);
    let len: usize = body.as_str().unicode_len();
    let mut r = String::new();
    let missing: usize = if len < 3 { 3 - len } else { 0 };
    for i in 0..missing
        invariant
            r@ == zeros(i as int),
    {
        r.push('0');
        assert(r@ =~= zeros(i + 1));
    }
    assert(zeros(missing as int) =~= zeros(3 - len));
    r.append(body.as_str());
    r
}

/// Reads a number of 32 bits.
pub fn parse_u32(s: &str) -> (r: Option<u32>)
    ensures
        r == parsed_u32(s@),
{
    let chars = chars_of(s);
    let n: usize = chars.len();
    let start: usize = if n > 0 && chars[0] == '+' { 1 } else { 0 };
    let ghost body = chars@.skip(start as int);
    assert(body =~= if s@.len() > 0 && s@[0] == '+' {
        s@.drop_first()
    } else {
        s@
    });
    if start == n {
        return None;
    }
    let mut value: u32 = 0;
    let mut i: usize = start;
    assert(body.take(0) =~= Seq::<char>::empty());
    while i < n
        invariant
            n == chars@.len(),
            start <= i <= n,
            body == chars@.skip(start as int),
            body.len() > 0,
            body == (if s@.len() > 0 && s@[0] == '+' {
                s@.drop_first()
            } else {
                s@
            }),
            all_digits(body.take(i - start)),
            value == digits_value(body.take(i - start)),
        decreases n - i,
    {
        let c = chars[i];
        if c < '0' || c > '9' {
            assert(!is_digit(body[i - start]));
            return None;
        }
        let code: u32 = c as u32;
        let ghost longer = body.take(i + 1 - start);
        let wide: u64 = 10 * (value as u64) + (code as u64 - 48);
        proof {
            assert(longer.drop_last() =~= body.take(i - start));
            assert(longer.last() == c);
            assert(wide == digits_value(longer));
            assert forall|j: int| 0 <= j < longer.len() implies is_digit(#[trigger] longer[j]) by {
                if j < i - start {
                    assert(longer[j] == body.take(i - start)[j]);
                }
            }
        }
        if wide > u32::MAX as u64 {
            proof {
                if all_digits(body) {
                    lemma_digits_value_prefix(body, i + 1 - start);
                }
            }
            return None;
        }
        value = wide as u32;
        i = i + 1;
    }
    assert(body.take(n - start) =~= body);
    Some(value)
}

/// The lower-case hexadecimal digit of value `d`.
pub open spec fn hex_digit(d: int) -> char {
    if d < 10 {
        (48 + d) as char
    } else {
        (87 + d) as char
    }
}

/// Whether `c` is one of `0` to `9` and `a` to `f`.
pub open spec fn is_hex_digit(c: char) -> bool {
    48 <= c as int <= 57 || 97 <= c as int <= 102
}

/// The value of a lower-case hexadecimal digit.
pub open spec fn hex_digit_value(c: char) -> int {
    if c as int <= 57 {
        c as int - 48
    } else {
        c as int - 87
    }
}

/// The last `width` digits of the lower-case hexadecimal notation of `n`, with
/// zeros in front where it has fewer.
pub open spec fn hex(n: nat, width: nat) -> Seq<char>
    decreases width,
{
    if width == 0 {
        seq![]
    } else {
        hex(n / 16, (width - 1) as nat).push(hex_digit((n % 16) as int))
    }
}

/// The number that a row of hexadecimal digits stands for.
pub open spec fn hex_value(s: Seq<char>) -> int
    decreases s.len(),
{
    if s.len() == 0 {
        0
    } else {
        16 * hex_value(s.drop_last()) + hex_digit_value(s.last())
    }
}

/// Sixteen to the power of `width`: how many numbers have that many digits.
pub open spec fn hex_span(width: nat) -> nat
    decreases width,
{
    if width == 0 {
        1
    } else {
        16 * hex_span((width - 1) as nat)
    }
}

/// Hexadecimal notation is a row of as many digits as asked for, and stands
/// for the number where that many digits can hold it.
pub proof fn lemma_hex(n: nat, width: nat)
    ensures
        hex(n, width).len() == width,
        forall|i: int| 0 <= i < width ==> is_hex_digit(#[trigger] hex(n, width)[i]),
        n < hex_span(width) ==> hex_value(hex(n, width)) == n,
    decreases width,
{
    if width > 0 {
        let w = (width - 1) as nat;
        lemma_hex(n / 16, w);
        let s = hex(n, width);
        assert(s.drop_last() =~= hex(n / 16, w));
        assert forall|i: int| 0 <= i < width implies is_hex_digit(#[trigger] s[i]) by {
            if i < w {
                assert(s[i] == hex(n / 16, w)[i]);
            }
        }
    }
}

/// Writes the last `width` hexadecimal digits of a number.
pub fn hex_text(n: u128, width: u32) -> (r: String)
    ensures
        r@ == hex(n as nat, width as nat),
{
    // the digits, the last one first
    let mut digits: Vec<char> = Vec::new();
    let mut rest: u128 = n;
    assert(hex(n as nat, width as nat) =~= hex(rest as nat, width as nat) + digits@.reverse());
    for i in 0..width
        invariant
            digits@.len() == i,
            hex(n as nat, width as nat) == hex(rest as nat, (width - i) as nat)
                + digits@.reverse(),
    {
        let d: u8 = (rest % 16) as u8;
        let c = if d < 10 { (48u8 + d) as char } else { (87u8 + d) as char };
        proof {
            let front = hex(rest as nat / 16, (width - i - 1) as nat);
            assert(hex(rest as nat, (width - i) as nat) == front.push(c));
            assert(front.push(c) + digits@.reverse() =~= front + digits@.push(c).reverse());
        }
        digits.push(c);
        rest = rest / 16;
    }
    let mut r = String::new();
    let mut left: usize = digits.len();
    while left > 0
        invariant
            left <= digits@.len(),
            r@ == digits@.reverse().take(digits@.len() - left),
        decreases left,
    {
        left = left - 1;
        r.push(digits[left]);
        assert(r@ =~= digits@.reverse().take(digits@.len() - left));
    }
    assert(r@ =~= digits@.reverse());
    assert(hex(rest as nat, 0) + digits@.reverse() =~= digits@.reverse());
    r
}

/// The pieces from a position on, each with a separator behind it, make up the
/// rest of the text.
proof fn lemma_pieces_join(s: Seq<char>, sep: char, from: int)
    requires
        0 <= from <= s.len(),
    ensures
        pieces_from(s, sep, from).len() > 0,
        pieces_from(s, sep, from).map_values(|p: Seq<char>| p.push(sep)).flatten() == s.skip(
            from,
        ).push(sep),
        forall|i: int, j: int|
            0 <= i < pieces_from(s, sep, from).len() && 0 <= j < pieces_from(
                s,
                sep,
                from,
            )[i].len() ==> #[trigger] pieces_from(s, sep, from)[i][j] != sep,
    decreases s.len() - from,
{
    lemma_next_index(s, sep, from);
    let end = next_index(s, sep, from);
    let f = |p: Seq<char>| p.push(sep);
    let all = pieces_from(s, sep, from);
    if end >= s.len() {
        let head = s.subrange(from, s.len() as int);
        let mapped = all.map_values(f);
        assert(mapped.first() == head.push(sep));
        assert(mapped.drop_first() =~= Seq::<Seq<char>>::empty());
        assert(mapped.drop_first().flatten() =~= Seq::<char>::empty());
        assert(mapped.flatten() =~= s.skip(from).push(sep));
        assert forall|i: int, j: int| 0 <= i < all.len() && 0 <= j < all[i].len() implies
            #[trigger] all[i][j] != sep by {
            assert(all[i][j] == s[from + j]);
        }
    } else {
        let head = s.subrange(from, end);
        let rest = pieces_from(s, sep, end + 1);
        lemma_pieces_join(s, sep, end + 1);
        let mapped = all.map_values(f);
        assert(all =~= seq![head] + rest);
        assert(mapped.first() == head.push(sep));
        assert(mapped.drop_first() =~= rest.map_values(f));
        assert(mapped.flatten() =~= head.push(sep) + s.skip(end + 1).push(sep));
        assert(mapped.flatten() =~= s.skip(from).push(sep));
        assert forall|i: int, j: int| 0 <= i < all.len() && 0 <= j < all[i].len() implies
            #[trigger] all[i][j] != sep by {
            if i == 0 {
                assert(all[i][j] == s[from + j]);
            } else {
                assert(all[i] == rest[i - 1]);
                assert(rest[i - 1][j] != sep);
            }
        }
    }
}

/// Splitting loses nothing and finds every separator: no piece holds the
/// separator, and the pieces, joined by it, are the text.
pub proof fn law_pieces_join_to_the_text(s: Seq<char>, sep: char)
    ensures
        pieces(s, sep).len() > 0,
        pieces(s, sep).map_values(|p: Seq<char>| p.push(sep)).flatten() == s.push(sep),
        forall|i: int, j: int|
            0 <= i < pieces(s, sep).len() && 0 <= j < pieces(s, sep)[i].len() ==> #[trigger] pieces(
                s,
                sep,
            )[i][j] != sep,
{
    lemma_pieces_join(s, sep, 0);
    assert(s.skip(0) =~= s);
}

/// A text that starts with a piece without the separator, and then ends or
/// goes on with a separator, has that piece first and then those of the rest.
pub proof fn law_first_piece(first: Seq<char>, sep: char, rest: Seq<char>)
    requires
        forall|i: int| 0 <= i < first.len() ==> first[i] != sep,
    ensures
        pieces(first, sep) == seq![first],
        pieces(first + seq![sep] + rest, sep) == seq![first] + pieces(rest, sep),
{
    lemma_next_index_is(first, sep, 0, first.len() as int);
    assert(first.subrange(0, first.len() as int) =~= first);
    let s = first + seq![sep] + rest;
    let at = first.len() as int;
    lemma_next_index_is(s, sep, 0, at);
    assert(s.subrange(0, at) =~= first);
    lemma_pieces_shift(s, sep, at + 1, 0);
    assert(s.skip(at + 1) =~= rest);
}

/// The pieces of the part of a text from a position on are the pieces of that
/// part taken for itself.
proof fn lemma_pieces_shift(s: Seq<char>, sep: char, by: int, from: int)
    requires
        0 <= by,
        0 <= from,
        by + from <= s.len(),
    ensures
        pieces_from(s, sep, by + from) == pieces_from(s.skip(by), sep, from),
    decreases s.len() - by - from,
{
    let t = s.skip(by);
    lemma_next_index(t, sep, from);
    let end = next_index(t, sep, from);
    assert forall|i: int| by + from <= i < by + end implies s[i] != sep by {
        assert(s[i] == t[i - by]);
        assert(t[i - by] != sep);
    }
    lemma_next_index_is(s, sep, by + from, by + end);
    assert(s.subrange(by + from, by + end) =~= t.subrange(from, end));
    if end < t.len() {
        lemma_pieces_shift(s, sep, by, end + 1);
    }
}

/// What a row of digits stands for, in the decimal system: the digit at each
/// position counts the power of ten of that position.
pub proof fn law_digits_count_powers_of_ten(s: Seq<char>, i: int)
    requires
        forall|j: int| 0 <= j < s.len() ==> '0' <= #[trigger] s[j] && s[j] <= '9',
        0 <= i < s.len(),
    ensures
        all_digits(s),
        0 <= digits_value(s) < pow(10, s.len()),
        (digits_value(s) / pow(10, (s.len() - 1 - i) as nat)) % 10 == s[i] as int - '0' as int,
    decreases s.len(),
{
    reveal(pow);
    let front = s.drop_last();
    let v = digits_value(front);
    let d = s.last() as int - 48;
    assert(s[s.len() - 1] == s.last());
    assert(all_digits(s));
    if front.len() > 0 {
        assert forall|j: int| 0 <= j < front.len() implies '0' <= #[trigger] front[j] && front[j]
            <= '9' by {
            assert(front[j] == s[j]);
        }
        let k = if i < front.len() {
            i
        } else {
            0
        };
        law_digits_count_powers_of_ten(front, k);
    } else {
        assert(pow(10, 0) == 1);
    }
    assert(0 <= v < pow(10, front.len()));
    assert(digits_value(s) == 10 * v + d);
    assert(pow(10, s.len()) == 10 * pow(10, front.len()));
    if i == s.len() - 1 {
        assert(pow(10, 0) == 1);
        assert(digits_value(s) / 1 == digits_value(s));
        assert((10 * v + d) % 10 == d);
    } else {
        let e = (s.len() - 2 - i) as nat;
        let q = pow(10, e);
        vstd::arithmetic::power::lemma_pow_positive(10, e);
        assert(pow(10, (s.len() - 1 - i) as nat) == 10 * q);
        vstd::arithmetic::div_mod::lemma_div_denominator(digits_value(s), 10, q);
        assert((10 * v + d) / 10 == v);
        assert(front[i] == s[i]);
    }
}

/// Decimal notation is what it is meant to be: digits only, no zero in front
/// but for the number zero, and together they stand for the number.
pub proof fn law_decimal_notation(n: nat)
    ensures
        decimal(n).len() > 0,
        forall|j: int|
            0 <= j < decimal(n).len() ==> '0' <= #[trigger] decimal(n)[j] && decimal(n)[j] <= '9',
        n > 0 ==> decimal(n)[0] != '0',
        n == 0 ==> decimal(n) == seq!['0'],
        digits_value(decimal(n)) == n,
    decreases n,
{
    lemma_decimal(n);
    if n >= 10 {
        law_decimal_notation(n / 10);
        assert(decimal(n)[0] == decimal(n / 10)[0]);
    }
    assert forall|j: int| 0 <= j < decimal(n).len() implies '0' <= #[trigger] decimal(n)[j]
        && decimal(n)[j] <= '9' by {
        assert(is_digit(decimal(n)[j]));
    }
}

/// Padding puts zeros in front, only as many as are missing, and keeps the
/// rest as it is.
pub proof fn law_padding_puts_zeros_in_front(s: Seq<char>, width: nat)
    ensures
        ({
            let padded = zero_padded(s, width);
            &&& padded.len() == if s.len() < width {
                width
            } else {
                s.len()
            }
            &&& padded.skip(padded.len() - s.len()) == s
            &&& forall|j: int| 0 <= j < padded.len() - s.len() ==> #[trigger] padded[j] == '0'
        }),
{
    let padded = zero_padded(s, width);
    assert(padded.skip(padded.len() - s.len()) =~= s);
}

/// A row of digits, with a plus sign in front or without, is read as the
/// number that it stands for, where 32 bits can hold it. Nothing else is read
/// as a number.
pub proof fn law_numbers_are_read_by_value(s: Seq<char>)
    ensures
        ({
            let digits = s.len() > 0 && forall|j: int|
                0 <= j < s.len() ==> '0' <= #[trigger] s[j] && s[j] <= '9';
            &&& digits && digits_value(s) <= u32::MAX ==> parsed_u32(s) == Some(
                digits_value(s) as u32,
            ) && parsed_u32(seq!['+'] + s) == parsed_u32(s)
            &&& digits && digits_value(s) > u32::MAX ==> parsed_u32(s) is None && parsed_u32(
                seq!['+'] + s,
            ) is None
            &&& !digits ==> parsed_u32(seq!['+'] + s) is None
            &&& !digits && (s.len() == 0 || s[0] != '+') ==> parsed_u32(s) is None
        }),
{
    assert((seq!['+'] + s).drop_first() =~= s);
    if forall|j: int| 0 <= j < s.len() ==> '0' <= #[trigger] s[j] && s[j] <= '9' {
        assert(all_digits(s));
        if s.len() > 0 {
            assert(s[0] != '+');
        }
    } else if all_digits(s) {
        assert forall|j: int| 0 <= j < s.len() implies '0' <= #[trigger] s[j] && s[j] <= '9' by {
            assert(is_digit(s[j]));
        }
    }
}

/// Hexadecimal notation is what it is meant to be: the digit at each position
/// counts the power of sixteen of that position.
pub proof fn law_hex_counts_powers_of_sixteen(n: nat, width: nat, i: int)
    requires
        0 <= i < width,
    ensures
        hex(n, width).len() == width,
        hex(n, width)[i] == "0123456789abcdef"@[(n as int / pow(16, (width - 1 - i) as nat)) % 16],
    decreases width,
{
    reveal(pow);
    reveal_strlit("0123456789abcdef");
    lemma_hex(n, width);
    let w = (width - 1) as nat;
    lemma_hex(n / 16, w);
    if i == width - 1 {
        assert(pow(16, 0) == 1);
        assert(n as int / 1 == n);
        let d = (n % 16) as int;
        assert(hex(n, width)[i] == hex_digit(d));
    } else {
        law_hex_counts_powers_of_sixteen(n / 16, w, i);
        let e = (w - 1 - i) as nat;
        vstd::arithmetic::power::lemma_pow_positive(16, e);
        assert(pow(16, (width - 1 - i) as nat) == 16 * pow(16, e));
        vstd::arithmetic::div_mod::lemma_div_denominator(n as int, 16, pow(16, e));
        assert(hex(n, width)[i] == hex(n / 16, w)[i]);
    }
}

} // verus!
