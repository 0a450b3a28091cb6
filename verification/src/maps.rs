//! Lines of `/proc/self/maps`: the address range at the start of a line, in
//! hexadecimal, parsed as `u64::from_str_radix(_, 16)` parses it.

use vstd::prelude::*;

verus! {

/// Whether `c` is a hexadecimal digit (`0-9`, `a-f` or `A-F`).
pub open spec fn is_hex_digit(c: u8) -> bool {
    (48 <= c <= 57) || (97 <= c <= 102) || (65 <= c <= 70)
}

/// The value of a hexadecimal digit (0 for any other byte).
pub open spec fn hex_digit_value(c: u8) -> nat {
    if 48 <= c <= 57 {
        (c - 48) as nat
    } else if 97 <= c <= 102 {
        (c - 87) as nat
    } else if 65 <= c <= 70 {
        (c - 55) as nat
    } else {
        0
    }
}

/// The number that a string of hexadecimal digits writes, most significant
/// digit first.
pub open spec fn hex_value(s: Seq<u8>) -> nat
    decreases s.len(),
{
    if s.len() == 0 {
        0
    } else {
        hex_value(s.drop_last()) * 16 + hex_digit_value(s.last())
    }
}

/// The digits of a number text: the text without one leading `+`.
pub open spec fn digits_of(s: Seq<u8>) -> Seq<u8> {
    if s.len() > 0 && s[0] == 43 {
        s.drop_first()
    } else {
        s
    }
}

/// What `u64::from_str_radix(s, 16)` gives, as an option: a value when `s`
/// is an optional `+` followed by at least one hexadecimal digit and nothing
/// else, and the number fits in 64 bits.
pub open spec fn parse_hex(s: Seq<u8>) -> Option<u64> {
    let d = digits_of(s);
    if d.len() > 0 && (forall|i: int| 0 <= i < d.len() ==> is_hex_digit(#[trigger] d[i]))
        && hex_value(d) <= u64::MAX {
        Some(hex_value(d) as u64)
    } else {
        None
    }
}

/// Whether `k` is the index of the first `sep` in `s`, or the length of `s`
/// when `sep` does not occur.
pub open spec fn is_first_sep(s: Seq<u8>, sep: u8, k: int) -> bool {
    &&& 0 <= k <= s.len()
    &&& forall|j: int| 0 <= j < k ==> s[j] != sep
    &&& k < s.len() ==> s[k] == sep
}

/// The index of the first `sep` in `s`, or its length.
pub open spec fn first_sep(s: Seq<u8>, sep: u8) -> int {
    choose|k: int| is_first_sep(s, sep, k)
}

/// The address range that a line of `/proc/self/maps` starts with: the text
/// before the first space, split at `-`, the first two pieces read as
/// hexadecimal numbers. `None` when there is no `-` there or a piece is not
/// a number.
pub open spec fn maps_line_range(line: Seq<u8>) -> Option<(u64, u64)> {
    let range = line.take(first_sep(line, 32));
    let k = first_sep(range, 45);
    if k == range.len() {
        None
    } else {
        let rest = range.skip(k + 1);
        let end_text = rest.take(first_sep(rest, 45));
        match (parse_hex(range.take(k)), parse_hex(end_text)) {
            (Some(start), Some(end)) => Some((start, end)),
            _ => None,
        }
    }
}

/// There is only one first separator.
proof fn lemma_first_sep_unique(s: Seq<u8>, sep: u8, k: int)
    requires
        is_first_sep(s, sep, k),
    ensures
        first_sep(s, sep) == k,
{
    let c = first_sep(s, sep);
    assert(is_first_sep(s, sep, c));
    if c < k {
        assert(s[c] != sep);
    } else if k < c {
        assert(s[k] != sep);
    }
}

/// A longer prefix of digits never writes a smaller number.
proof fn lemma_hex_value_monotone(s: Seq<u8>, j: int, k: int)
    requires
        0 <= j <= k <= s.len(),
    ensures
        hex_value(s.take(j)) <= hex_value(s.take(k)),
    decreases k - j,
{
    if j < k {
        lemma_hex_value_monotone(s, j, k - 1);
        assert(s.take(k).drop_last() == s.take(k - 1));
    }
}

/// The value of a hexadecimal digit, or `None` for any other byte.
fn hex_digit(c: u8) -> (d: Option<u64>)
    ensures
        d == (if is_hex_digit(c) { Some(hex_digit_value(c) as u64) } else { None }),
{
    if 48 <= c && c <= 57 {
        Some((c - 48) as u64)
    } else if 97 <= c && c <= 102 {
        Some((c - 87) as u64)
    } else if 65 <= c && c <= 70 {
        Some((c - 55) as u64)
    } else {
        None
    }
}

/// Parses a hexadecimal `u64` as `u64::from_str_radix(text, 16)` does:
/// an optional leading `+`, then one or more digits `0-9`, `a-f`, `A-F`,
/// no overflow. `None` where that returns an error.
pub fn parse_hex_u64(text: &[u8]) -> (r: Option<u64>)
    ensures
        r == parse_hex(text@),
{
    let n = text.len();
    if n == 0 {
        return None;
    }
    let mut start: usize = 0;
    if text[0] == 43 {
        if n == 1 {
            return None;
        }
        start = 1;
    }
    let ghost d = digits_of(text@);
    assert(d == text@.skip(start as int));
    let mut acc: u64 = 0;
    let mut i: usize = start;
    while i < n
        invariant
            start <= i <= n,
            n == text@.len(),
            d == text@.skip(start as int),
            d == digits_of(text@),
            d.len() > 0,
            acc as nat == hex_value(d.take(i - start)),
            forall|j: int| 0 <= j < i - start ==> is_hex_digit(#[trigger] d[j]),
        decreases n - i,
    {
        let ghost k: int = i - start;
        assert(d[k] == text@[i as int]);
        assert(d.take(k + 1).drop_last() == d.take(k));
        match hex_digit(text[i]) {
            None => {
                assert(!is_hex_digit(d[k]));
                assert(!(forall|j: int| 0 <= j < d.len() ==> is_hex_digit(#[trigger] d[j])));
                return None;
            },
            Some(digit) => {
                if acc > (u64::MAX - digit) / 16 {
                    proof {
                        assert(acc * 16 + digit > u64::MAX) by (nonlinear_arith)
                            requires
                                acc > (u64::MAX - digit) / 16,
                                digit <= 15,
                        ;
                        lemma_hex_value_monotone(d, k + 1, d.len() as int);
                        assert(d.take(d.len() as int) == d);
                        assert(hex_value(d.take(k + 1)) == acc * 16 + digit);
                        assert(hex_value(d) > u64::MAX);
                    }
                    return None;
                }
                assert(acc * 16 + digit <= u64::MAX) by (nonlinear_arith)
                    requires
                        acc <= (u64::MAX - digit) / 16,
                        digit <= 15,
                ;
                acc = acc * 16 + digit;
            },
        }
        i = i + 1;
    }
    assert(d.take(d.len() as int) == d);
    Some(acc)
}

/// The index of the first `sep` in `s`, or the length of `s`.
fn find_byte(s: &[u8], sep: u8) -> (k: usize)
    ensures
        is_first_sep(s@, sep, k as int),
        k as int == first_sep(s@, sep),
{
    let n = s.len();
    let mut i: usize = 0;
    while i < n
        invariant
            i <= n,
            n == s@.len(),
            forall|j: int| 0 <= j < i ==> s@[j] != sep,
        decreases n - i,
    {
        if s[i] == sep {
            proof {
                lemma_first_sep_unique(s@, sep, i as int);
            }
            return i;
        }
        i = i + 1;
    }
    proof {
        lemma_first_sep_unique(s@, sep, i as int);
    }
    i
}

/// The start and end address of the mapping that a line of
/// `/proc/self/maps` describes, or `None` where reading them with
/// `split(' ')`, `split('-')` and `u64::from_str_radix(_, 16)` fails.
pub fn parse_maps_range(line: &[u8]) -> (r: Option<(u64, u64)>)
    ensures
        r == maps_line_range(line@),
{
    let sp = find_byte(line, 32);
    let range = &line[0..sp];
    assert(range@ == line@.take(sp as int));
    let k = find_byte(range, 45);
    if k == range.len() {
        return None;
    }
    let start_text = &range[0..k];
    assert(start_text@ == range@.take(k as int));
    let rest = &range[k + 1..range.len()];
    assert(rest@ == range@.skip(k + 1));
    let k2 = find_byte(rest, 45);
    let end_text = &rest[0..k2];
    assert(end_text@ == rest@.take(k2 as int));
    let start = parse_hex_u64(start_text);
    let end = parse_hex_u64(end_text);
    match (start, end) {
        (Some(a), Some(b)) => Some((a, b)),
        _ => None,
    }
}

/// The lowercase hexadecimal digit for `d` (below 16).
pub open spec fn hex_char(d: nat) -> u8 {
    if d < 10 {
        (48 + d) as u8
    } else {
        (87 + d) as u8
    }
}

/// The lowercase hexadecimal text of `n`, without leading zeros, as
/// `format!("{:x}", n)` writes it.
pub open spec fn hex_text(n: nat) -> Seq<u8>
    decreases n,
{
    if n < 16 {
        seq![hex_char(n)]
    } else {
        hex_text(n / 16).push(hex_char(n % 16))
    }
}

/// The hexadecimal text of `n` is non-empty, made of hexadecimal digits
/// (none of them a space, a dash or a plus) and writes `n`.
proof fn lemma_hex_text(n: nat)
    ensures
        hex_text(n).len() > 0,
        forall|i: int|
            0 <= i < hex_text(n).len() ==> is_hex_digit(#[trigger] hex_text(n)[i]) && hex_text(
                n,
            )[i] != 32 && hex_text(n)[i] != 45 && hex_text(n)[i] != 43,
        hex_value(hex_text(n)) == n,
    decreases n,
{
    if n < 16 {
        let t = hex_text(n);
        assert(t.drop_last() == Seq::<u8>::empty());
        assert(hex_value(t) == hex_value(t.drop_last()) * 16 + hex_digit_value(t.last()));
    } else {
        lemma_hex_text(n / 16);
        let s = hex_text(n / 16);
        let t = hex_text(n);
        assert(t == s.push(hex_char(n % 16)));
        assert(t.drop_last() == s);
        assert(hex_value(t) == (n / 16) * 16 + n % 16);
        assert(forall|i: int| 0 <= i < s.len() ==> t[i] == s[i]);
    }
}

/// Every hexadecimal text of a 64-bit number parses back to that number.
pub proof fn lemma_parse_hex_round_trip(n: u64)
    ensures
        parse_hex(hex_text(n as nat)) == Some(n),
{
    lemma_hex_text(n as nat);
    let t = hex_text(n as nat);
    assert(digits_of(t) == t);
}

/// A single byte is a number exactly when it is a hexadecimal digit:
/// `0`-`9` stand for 0 to 9, `a`-`f` and `A`-`F` for 10 to 15, and every
/// other byte is refused.
pub proof fn lemma_single_hex_digit(c: u8)
    ensures
        48 <= c <= 57 ==> parse_hex(seq![c]) == Some((c - 48) as u64),
        97 <= c <= 102 ==> parse_hex(seq![c]) == Some((c - 87) as u64),
        65 <= c <= 70 ==> parse_hex(seq![c]) == Some((c - 55) as u64),
        !(48 <= c <= 57 || 97 <= c <= 102 || 65 <= c <= 70) ==> parse_hex(seq![c]) is None,
{
    let t = seq![c];
    assert(t.drop_last() == Seq::<u8>::empty());
    if c == 43 {
        assert(digits_of(t).len() == 0);
    } else {
        assert(digits_of(t) == t);
        assert(t[0] == c && t.last() == c);
        assert(hex_value(Seq::<u8>::empty()) == 0);
        assert(hex_value(t) == hex_value(t.drop_last()) * 16 + hex_digit_value(t.last()));
        assert(hex_value(t) == hex_digit_value(c));
        if !(48 <= c <= 57 || 97 <= c <= 102 || 65 <= c <= 70) {
            assert(!is_hex_digit(t[0]));
        }
    }
}

/// Appending a digit to a number text multiplies its value by 16 and adds the
/// digit, as long as the result fits in 64 bits; a leading `+` changes nothing.
pub proof fn lemma_parse_hex_push_digit(s: Seq<u8>, c: u8)
    requires
        parse_hex(s) is Some,
        is_hex_digit(c),
        parse_hex(s)->Some_0 as nat * 16 + hex_digit_value(c) <= u64::MAX,
    ensures
        parse_hex(s.push(c)) == Some(
            (parse_hex(s)->Some_0 as nat * 16 + hex_digit_value(c)) as u64,
        ),
{
    let d = digits_of(s);
    let t = s.push(c);
    assert(digits_of(t) == d.push(c)) by {
        if s.len() > 0 && s[0] == 43 {
            assert(t[0] == 43);
            assert(t.drop_first() == s.drop_first().push(c));
        }
    }
    let e = d.push(c);
    assert(e.drop_last() == d);
    assert forall|i: int| 0 <= i < e.len() implies is_hex_digit(#[trigger] e[i]) by {
        if i < d.len() {
            assert(e[i] == d[i]);
        }
    }
}

/// A leading `+` in front of digits does not change the number they write.
pub proof fn lemma_parse_hex_plus(s: Seq<u8>)
    requires
        s.len() > 0,
        s[0] != 43,
    ensures
        parse_hex(seq![43u8] + s) == parse_hex(s),
{
    let t = seq![43u8] + s;
    assert(t.drop_first() == s);
    assert(digits_of(s) == s);
}

/// A maps line that starts with two hexadecimal numbers joined by a dash and
/// followed by a space gives those two numbers, whatever the rest of the line.
pub proof fn lemma_maps_line_round_trip(a: u64, b: u64, rest: Seq<u8>)
    ensures
        maps_line_range(hex_text(a as nat) + seq![45u8] + hex_text(b as nat) + seq![32u8] + rest)
            == Some((a, b)),
{
    let ta = hex_text(a as nat);
    let tb = hex_text(b as nat);
    lemma_hex_text(a as nat);
    lemma_hex_text(b as nat);
    let range = ta + seq![45u8] + tb;
    let line = range + seq![32u8] + rest;
    assert forall|j: int| 0 <= j < range.len() implies line[j] != 32 by {
        assert(line[j] == range[j]);
        if j < ta.len() {
            assert(range[j] == ta[j]);
        } else if j > ta.len() {
            assert(range[j] == tb[j - ta.len() - 1]);
        }
    }
    assert(line[range.len() as int] == 32);
    assert(is_first_sep(line, 32, range.len() as int));
    lemma_first_sep_unique(line, 32, range.len() as int);
    assert(line.take(range.len() as int) == range);
    assert forall|j: int| 0 <= j < ta.len() implies range[j] != 45 by {
        assert(range[j] == ta[j]);
    }
    assert(range[ta.len() as int] == 45);
    assert(is_first_sep(range, 45, ta.len() as int));
    lemma_first_sep_unique(range, 45, ta.len() as int);
    assert(range.take(ta.len() as int) == ta);
    assert(range.skip(ta.len() as int + 1) == tb);
    assert(is_first_sep(tb, 45, tb.len() as int));
    lemma_first_sep_unique(tb, 45, tb.len() as int);
    assert(tb.take(tb.len() as int) == tb);
    lemma_parse_hex_round_trip(a);
    lemma_parse_hex_round_trip(b);
}

} // verus!
