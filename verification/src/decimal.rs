//! Decimal numerals.
use vstd::prelude::*;
use vstd::string::*;
use vstd::utf8::*;

use crate::text;

verus! {

/// The byte of the digit zero.
const ZERO: u8 = 0x30;

/// The byte of the digit nine.
const NINE: u8 = 0x39;

pub open spec fn is_digit(c: char) -> bool {
    '0' <= c <= '9'
}

/// The number that a digit stands for.
pub open spec fn digit_value(c: char) -> nat
    recommends
        is_digit(c),
{
    (c as int - '0' as int) as nat
}

pub open spec fn all_digits(s: Seq<char>) -> bool {
    forall|i: int| 0 <= i < s.len() ==> #[trigger] is_digit(s[i])
}

/// The number that a sequence of digits stands for, the most significant digit first.
pub open spec fn decimal_value(s: Seq<char>) -> nat
    recommends
        all_digits(s),
    decreases s.len(),
{
    if s.len() == 0 {
        0
    } else {
        10 * decimal_value(s.drop_last()) + digit_value(s.last())
    }
}

/// A numeral of one to `max_len` digits for a number up to `max`.
/// Leading zeros are allowed; signs and white space are not.
pub open spec fn is_numeral(s: Seq<char>, max_len: nat, max: nat) -> bool {
    &&& 1 <= s.len() <= max_len
    &&& all_digits(s)
    &&& decimal_value(s) <= max
}

/// A numeral for a `u8`: up to three digits, at most 255.
pub open spec fn is_u8_numeral(s: Seq<char>) -> bool {
    is_numeral(s, 3, 255)
}

/// A numeral for a `u16`: up to five digits, at most 65535.
pub open spec fn is_u16_numeral(s: Seq<char>) -> bool {
    is_numeral(s, 5, 65535)
}

/// The digit for a number below ten.
pub open spec fn digit_char(d: nat) -> char
    recommends
        d < 10,
{
    ('0' as int + d) as char
}

/// The shortest numeral for a number: the one without superfluous leading zeros.
pub open spec fn decimal_text(n: nat) -> Seq<char>
    decreases n,
{
    if n < 10 {
        seq![digit_char(n)]
    } else {
        decimal_text(n / 10).push(digit_char(n % 10))
    }
}

/// The shortest numeral for a number stands for that number.
pub proof fn law_decimal_text_value(n: nat)
    ensures
        decimal_text(n).len() >= 1,
        all_digits(decimal_text(n)),
        decimal_value(decimal_text(n)) == n,
    decreases n,
{
    reveal_with_fuel(decimal_value, 2);
    let s = decimal_text(n);
    if n < 10 {
        assert(s.drop_last() =~= seq![]);
    } else {
        law_decimal_text_value(n / 10);
        assert(s.drop_last() =~= decimal_text(n / 10));
        assert forall|i: int| 0 <= i < s.len() implies #[trigger] is_digit(s[i]) by {
            if i < s.len() - 1 {
                assert(s[i] == decimal_text(n / 10)[i]);
            }
        }
    }
}

/// A digit at the end makes a number ten times as large and adds the digit.
pub proof fn law_appended_digit(s: Seq<char>, c: char)
    requires
        '0' <= c <= '9',
    ensures
        decimal_value(seq![]) == 0,
        decimal_value(s.push(c)) == 10 * decimal_value(s) + (c as int - '0' as int),
{
    assert(s.push(c).drop_last() =~= s);
}

/// What each digit counts for in its place, for the lengths that are read.
pub proof fn law_place_values(a: char, b: char, c: char, d: char, e: char)
    requires
        '0' <= a <= '9',
        '0' <= b <= '9',
        '0' <= c <= '9',
        '0' <= d <= '9',
        '0' <= e <= '9',
    ensures
        ({
            let (va, vb, vc, vd, ve) = (
                a as int - '0' as int,
                b as int - '0' as int,
                c as int - '0' as int,
                d as int - '0' as int,
                e as int - '0' as int,
            );
            &&& decimal_value(seq![a]) == va
            &&& decimal_value(seq![a, b]) == 10 * va + vb
            &&& decimal_value(seq![a, b, c]) == 100 * va + 10 * vb + vc
            &&& decimal_value(seq![a, b, c, d]) == 1000 * va + 100 * vb + 10 * vc + vd
            &&& decimal_value(seq![a, b, c, d, e]) == 10000 * va + 1000 * vb + 100 * vc + 10 * vd
                + ve
        }),
{
    let none: Seq<char> = seq![];
    law_appended_digit(none, a);
    law_appended_digit(seq![a], b);
    law_appended_digit(seq![a, b], c);
    law_appended_digit(seq![a, b, c], d);
    law_appended_digit(seq![a, b, c, d], e);
    assert(none.push(a) =~= seq![a]);
    assert(seq![a].push(b) =~= seq![a, b]);
    assert(seq![a, b].push(c) =~= seq![a, b, c]);
    assert(seq![a, b, c].push(d) =~= seq![a, b, c, d]);
    assert(seq![a, b, c, d].push(e) =~= seq![a, b, c, d, e]);
}

/// Exactly the texts of one to three digits for a number up to 255 are read as a `u8`,
/// and exactly those of one to five digits for a number up to 65535 as a `u16`.
pub proof fn law_numerals_that_are_read(s: Seq<char>)
    ensures
        is_u8_numeral(s) <==> (1 <= s.len() <= 3 && decimal_value(s) <= 255 && forall|i: int|
            0 <= i < s.len() ==> '0' <= #[trigger] s[i] <= '9'),
        is_u16_numeral(s) <==> (1 <= s.len() <= 5 && decimal_value(s) <= 65535 && forall|i: int|
            0 <= i < s.len() ==> '0' <= #[trigger] s[i] <= '9'),
{
    if all_digits(s) {
        assert forall|i: int| 0 <= i < s.len() implies '0' <= #[trigger] s[i] <= '9' by {
            assert(is_digit(s[i]));
        }
    }
}

/// Every `u8` has a numeral that is read as that `u8`.
pub proof fn law_every_u8_is_read(n: u8)
    ensures
        is_u8_numeral(decimal_text(n as nat)),
        decimal_value(decimal_text(n as nat)) == n,
{
    law_decimal_text_value(n as nat);
    reveal_with_fuel(decimal_text, 3);
}

/// Every `u16` has a numeral that is read as that `u16`.
pub proof fn law_every_u16_is_read(n: u16)
    ensures
        is_u16_numeral(decimal_text(n as nat)),
        decimal_value(decimal_text(n as nat)) == n,
{
    law_decimal_text_value(n as nat);
    reveal_with_fuel(decimal_text, 5);
}

/// A leading zero does not change the number that a numeral stands for.
pub proof fn law_leading_zero(s: Seq<char>)
    ensures
        decimal_value(seq!['0'] + s) == decimal_value(s),
    decreases s.len(),
{
    reveal_with_fuel(decimal_value, 2);
    let padded = seq!['0'] + s;
    if s.len() == 0 {
        assert(padded.drop_last() =~= seq![]);
    } else {
        assert(padded.drop_last() =~= seq!['0'] + s.drop_last());
        law_leading_zero(s.drop_last());
    }
}

/// A numeral stays one with a leading zero, as long as there is room for the digit.
pub proof fn law_padded_numeral(s: Seq<char>, max_len: nat, max: nat)
    requires
        is_numeral(s, max_len, max),
    ensures
        is_numeral(seq!['0'] + s, max_len + 1, max),
        decimal_value(seq!['0'] + s) == decimal_value(s),
{
    law_leading_zero(s);
    let padded = seq!['0'] + s;
    assert forall|i: int| 0 <= i < padded.len() implies #[trigger] is_digit(padded[i]) by {
        if i > 0 {
            assert(is_digit(s[i - 1]));
        }
    }
}

/// A numeral without a superfluous leading zero.
pub open spec fn is_shortest(s: Seq<char>) -> bool {
    s.len() == 1 || s[0] != '0'
}

/// A number has one numeral without superfluous leading zeros.
pub proof fn law_shortest_numeral(s: Seq<char>)
    requires
        s.len() >= 1,
        all_digits(s),
        is_shortest(s),
    ensures
        decimal_text(decimal_value(s)) == s,
        s[0] != '0' ==> decimal_value(s) > 0,
    decreases s.len(),
{
    reveal_with_fuel(decimal_value, 2);
    let front = s.drop_last();
    assert(is_digit(s.last()));
    if s.len() == 1 {
        assert(front =~= seq![]);
        assert(decimal_text(decimal_value(s)) =~= s);
    } else {
        assert forall|i: int| 0 <= i < front.len() implies #[trigger] is_digit(front[i]) by {
            assert(is_digit(s[i]));
        }
        law_shortest_numeral(front);
        assert(decimal_text(decimal_value(s)) =~= front.push(s.last()));
        assert(front.push(s.last()) =~= s);
    }
}

/// A prefix of a sequence of digits stands for no larger a number.
proof fn lemma_prefix_value(s: Seq<char>, k: int)
    requires
        0 <= k <= s.len(),
    ensures
        decimal_value(s.take(k)) <= decimal_value(s),
    decreases s.len() - k,
{
    if k < s.len() {
        assert(s.take(k + 1).drop_last() =~= s.take(k));
        lemma_prefix_value(s, k + 1);
    } else {
        assert(s.take(k) =~= s);
    }
}

/// The value of a prefix with one digit more.
proof fn lemma_next_digit(s: Seq<char>, k: int)
    requires
        0 <= k < s.len(),
    ensures
        decimal_value(s.take(k + 1)) == 10 * decimal_value(s.take(k)) + digit_value(s[k]),
{
    assert(s.take(k + 1).drop_last() =~= s.take(k));
}

/// A text of digits is encoded one byte to a digit.
proof fn lemma_digit_bytes(s: Seq<char>)
    requires
        all_digits(s),
    ensures
        encode_utf8(s).len() == s.len(),
        forall|i: int| 0 <= i < s.len() ==> #[trigger] encode_utf8(s)[i] == s[i] as u8,
        forall|i: int| 0 <= i < s.len() ==> ZERO <= #[trigger] encode_utf8(s)[i] <= NINE,
        forall|i: int|
            0 <= i < s.len() ==> #[trigger] encode_utf8(s)[i] == ZERO + digit_value(s[i]),
{
    assert forall|i: int| 0 <= i < s.len() implies '\0' <= #[trigger] s[i] <= '\u{7f}' by {
        assert(is_digit(s[i]));
    }
    is_ascii_chars_encode_utf8(s);
    assert forall|i: int| 0 <= i < s.len() implies ZERO <= #[trigger] encode_utf8(s)[i] <= NINE
        && encode_utf8(s)[i] == ZERO + digit_value(s[i]) by {
        assert(is_digit(s[i]));
    }
}

/// A text whose encoding is made of digits is a text of digits.
proof fn lemma_digits_from_bytes(s: Seq<char>)
    requires
        forall|i: int|
            0 <= i < encode_utf8(s).len() ==> ZERO <= #[trigger] encode_utf8(s)[i] <= NINE,
    ensures
        all_digits(s),
{
    text::lemma_ascii_from_bytes(s);
    is_ascii_chars_encode_utf8(s);
    assert forall|i: int| 0 <= i < s.len() implies #[trigger] is_digit(s[i]) by {
        let c = s[i];
        assert('\0' <= c <= '\u{7f}');
        assert(encode_utf8(s)[i] == c as u8);
    }
}

/// The number that a numeral of up to three digits stands for, where it fits a `u8`.
pub fn parse_u8(s: &str) -> (value: Option<u8>)
    ensures
        value is Some <==> is_u8_numeral(s@),
        value matches Some(v) ==> v == decimal_value(s@),
{
    if s.is_empty() || s.len() > 3 {
        proof {
            if all_digits(s@) {
                lemma_digit_bytes(s@);
            }
        }
        return None;
    }
    let bytes = s.as_bytes();
    let mut v: u16 = 0;
    let mut i: usize = 0;
    while i < bytes.len()
        invariant
            i <= bytes@.len(),
            bytes@ == encode_utf8(s@),
            v <= 255,
            forall|j: int| 0 <= j < i ==> ZERO <= #[trigger] bytes@[j] <= NINE,
            all_digits(s@) ==> v == decimal_value(s@.take(i as int)),
        decreases bytes@.len() - i,
    {
        let b = bytes[i];
        proof {
            if all_digits(s@) {
                lemma_digit_bytes(s@);
                lemma_next_digit(s@, i as int);
                lemma_prefix_value(s@, i + 1);
            }
        }
        if !(ZERO <= b && b <= NINE) {
            return None;
        }
        v = v * 10 + (b - ZERO) as u16;
        if v > 255 {
            return None;
        }
        i = i + 1;
    }
    proof {
        lemma_digits_from_bytes(s@);
        lemma_digit_bytes(s@);
        assert(s@.take(i as int) =~= s@);
    }
    Some(v as u8)
}

/// The number that a numeral of up to five digits stands for, where it fits a `u16`.
pub fn parse_u16(s: &str) -> (value: Option<u16>)
    ensures
        value is Some <==> is_u16_numeral(s@),
        value matches Some(v) ==> v == decimal_value(s@),
{
    if s.is_empty() || s.len() > 5 {
        proof {
            if all_digits(s@) {
                lemma_digit_bytes(s@);
            }
        }
        return None;
    }
    let bytes = s.as_bytes();
    let mut v: u32 = 0;
    let mut i: usize = 0;
    while i < bytes.len()
        invariant
            i <= bytes@.len(),
            bytes@ == encode_utf8(s@),
            v <= 65535,
            forall|j: int| 0 <= j < i ==> ZERO <= #[trigger] bytes@[j] <= NINE,
            all_digits(s@) ==> v == decimal_value(s@.take(i as int)),
        decreases bytes@.len() - i,
    {
        let b = bytes[i];
        proof {
            if all_digits(s@) {
                lemma_digit_bytes(s@);
                lemma_next_digit(s@, i as int);
                lemma_prefix_value(s@, i + 1);
            }
        }
        if !(ZERO <= b && b <= NINE) {
            return None;
        }
        v = v * 10 + (b - ZERO) as u32;
        if v > 65535 {
            return None;
        }
        i = i + 1;
    }
    proof {
        lemma_digits_from_bytes(s@);
        lemma_digit_bytes(s@);
        assert(s@.take(i as int) =~= s@);
    }
    Some(v as u16)
}

} // verus!
