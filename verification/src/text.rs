//! Cutting a text at a separator.
//!
//! Texts are handled as UTF-8 bytes and specified as sequences of characters;
//! the lemmas of this module relate the two.
use vstd::prelude::*;
use vstd::string::*;
use vstd::utf8::*;

verus! {

/// The position of the first `c` in `s`, or the length of `s` where there is none.
pub open spec fn first_position(s: Seq<char>, c: char) -> nat
    decreases s.len(),
{
    if s.len() == 0 || s[0] == c {
        0
    } else {
        1 + first_position(s.drop_first(), c)
    }
}

/// The position of the last `c` in `s`, or -1 where there is none.
pub open spec fn last_position(s: Seq<char>, c: char) -> int
    decreases s.len(),
{
    if s.len() == 0 {
        -1
    } else if s.last() == c {
        s.len() - 1
    } else {
        last_position(s.drop_last(), c)
    }
}

/// The fields of `s` between the occurrences of `separator`, in order.
/// A text without the separator is one field.
pub open spec fn split_fields(s: Seq<char>, separator: char) -> Seq<Seq<char>>
    decreases s.len(),
{
    let k = first_position(s, separator);
    if k < s.len() {
        seq![s.take(k as int)] + split_fields(s.skip(k as int + 1), separator)
    } else {
        seq![s]
    }
}

/// The text of these fields with a separator between each two.
pub open spec fn join_fields(fields: Seq<Seq<char>>, separator: char) -> Seq<char>
    decreases fields.len(),
{
    if fields.len() == 0 {
        seq![]
    } else if fields.len() == 1 {
        fields[0]
    } else {
        fields[0] + seq![separator] + join_fields(fields.drop_first(), separator)
    }
}

/// A text cut behind a prefix without the separator is cut at the first one.
pub proof fn lemma_first_position(a: Seq<char>, separator: char, b: Seq<char>)
    requires
        !a.contains(separator),
    ensures
        first_position(a + seq![separator] + b, separator) == a.len(),
    decreases a.len(),
{
    let s = a + seq![separator] + b;
    if a.len() > 0 {
        assert(a[0] != separator);
        assert(s.drop_first() =~= a.drop_first() + seq![separator] + b);
        assert(!a.drop_first().contains(separator)) by {
            if a.drop_first().contains(separator) {
                let i = choose|i: int|
                    0 <= i < a.drop_first().len() && a.drop_first()[i] == separator;
                assert(a[i + 1] == separator);
            }
        }
        lemma_first_position(a.drop_first(), separator, b);
    }
}

/// Where the separator does not occur there is no first one.
pub proof fn lemma_no_first_position(s: Seq<char>, separator: char)
    requires
        !s.contains(separator),
    ensures
        first_position(s, separator) == s.len(),
    decreases s.len(),
{
    if s.len() > 0 {
        assert(s[0] != separator);
        assert(!s.drop_first().contains(separator)) by {
            if s.drop_first().contains(separator) {
                let i = choose|i: int|
                    0 <= i < s.drop_first().len() && s.drop_first()[i] == separator;
                assert(s[i + 1] == separator);
            }
        }
        lemma_no_first_position(s.drop_first(), separator);
    }
}

/// The first separator of a text, and that none stands before it.
pub proof fn lemma_first_position_found(s: Seq<char>, separator: char)
    ensures
        first_position(s, separator) <= s.len(),
        first_position(s, separator) < s.len() ==> s[first_position(s, separator) as int]
            == separator,
        !s.take(first_position(s, separator) as int).contains(separator),
    decreases s.len(),
{
    let k = first_position(s, separator) as int;
    if s.len() > 0 && s[0] != separator {
        let rest = s.drop_first();
        lemma_first_position_found(rest, separator);
        if s.take(k).contains(separator) {
            let i = choose|i: int| 0 <= i < s.take(k).len() && s.take(k)[i] == separator;
            assert(rest.take(k - 1)[i - 1] == separator);
        }
    }
}

/// A text cut before a suffix without the separator is cut at the last one.
pub proof fn lemma_last_position(a: Seq<char>, separator: char, b: Seq<char>)
    requires
        !b.contains(separator),
    ensures
        last_position(a + seq![separator] + b, separator) == a.len(),
    decreases b.len(),
{
    let s = a + seq![separator] + b;
    if b.len() > 0 {
        assert(s.last() == b[b.len() - 1]);
        assert(s.drop_last() =~= a + seq![separator] + b.drop_last());
        assert(!b.drop_last().contains(separator)) by {
            if b.drop_last().contains(separator) {
                let i = choose|i: int|
                    0 <= i < b.drop_last().len() && b.drop_last()[i] == separator;
                assert(b[i] == separator);
            }
        }
        lemma_last_position(a, separator, b.drop_last());
    }
}

/// The last separator of a text, and that none stands behind it.
pub proof fn lemma_last_position_found(s: Seq<char>, separator: char)
    requires
        s.contains(separator),
    ensures
        0 <= last_position(s, separator) < s.len(),
        s[last_position(s, separator)] == separator,
        !s.skip(last_position(s, separator) + 1).contains(separator),
    decreases s.len(),
{
    if s.last() != separator {
        let front = s.drop_last();
        let at = choose|i: int| 0 <= i < s.len() && s[i] == separator;
        assert(front[at] == separator);
        lemma_last_position_found(front, separator);
        let k = last_position(s, separator);
        let tail = s.skip(k + 1);
        if tail.contains(separator) {
            let i = choose|i: int| 0 <= i < tail.len() && tail[i] == separator;
            assert(front.skip(k + 1)[i] == separator);
        }
    }
}

/// The fields of a text that begins with a field and a separator.
pub proof fn lemma_split_fields_first(a: Seq<char>, separator: char, b: Seq<char>)
    requires
        !a.contains(separator),
    ensures
        split_fields(a + seq![separator] + b, separator) == seq![a] + split_fields(b, separator),
{
    let s = a + seq![separator] + b;
    lemma_first_position(a, separator, b);
    assert(s.take(a.len() as int) =~= a);
    assert(s.skip(a.len() as int + 1) =~= b);
}

/// The fields of a text without the separator.
pub proof fn lemma_split_fields_last(s: Seq<char>, separator: char)
    requires
        !s.contains(separator),
    ensures
        split_fields(s, separator) == seq![s],
{
    lemma_no_first_position(s, separator);
}

/// There is always a field, and no field holds the separator.
pub proof fn lemma_split_fields_separate(s: Seq<char>, separator: char)
    ensures
        split_fields(s, separator).len() >= 1,
        forall|i: int|
            0 <= i < split_fields(s, separator).len() ==> !(#[trigger] split_fields(
                s,
                separator,
            )[i]).contains(separator),
    decreases s.len(),
{
    let fields = split_fields(s, separator);
    lemma_first_position_found(s, separator);
    let k = first_position(s, separator) as int;
    if k < s.len() {
        let rest = split_fields(s.skip(k + 1), separator);
        lemma_split_fields_separate(s.skip(k + 1), separator);
        assert forall|i: int| 0 <= i < fields.len() implies !(#[trigger] fields[i]).contains(
            separator,
        ) by {
            if i > 0 {
                assert(fields[i] == rest[i - 1]);
            }
        }
    } else {
        assert(s.take(k) =~= s);
    }
}

/// Joining the fields of a text gives the text back.
pub proof fn law_split_then_join(s: Seq<char>, separator: char)
    ensures
        join_fields(split_fields(s, separator), separator) == s,
    decreases s.len(),
{
    lemma_first_position_found(s, separator);
    let k = first_position(s, separator) as int;
    if k < s.len() {
        let rest = split_fields(s.skip(k + 1), separator);
        lemma_split_fields_separate(s.skip(k + 1), separator);
        law_split_then_join(s.skip(k + 1), separator);
        assert(split_fields(s, separator).drop_first() =~= rest);
        assert(s =~= s.take(k) + seq![separator] + s.skip(k + 1));
    }
}

/// Splitting joined fields gives the fields back, as long as none of them holds the
/// separator.
pub proof fn law_join_then_split(fields: Seq<Seq<char>>, separator: char)
    requires
        fields.len() >= 1,
        forall|i: int| 0 <= i < fields.len() ==> !(#[trigger] fields[i]).contains(separator),
    ensures
        split_fields(join_fields(fields, separator), separator) == fields,
    decreases fields.len(),
{
    if fields.len() == 1 {
        lemma_split_fields_last(fields[0], separator);
        assert(seq![fields[0]] =~= fields);
    } else {
        let rest = fields.drop_first();
        law_join_then_split(rest, separator);
        lemma_split_fields_first(fields[0], separator, join_fields(rest, separator));
        assert(seq![fields[0]] + rest =~= fields);
    }
}

/// What stands before the first separator is the first field; the others are the
/// fields of what stands behind it.
pub proof fn law_first_field(before: Seq<char>, separator: char, after: Seq<char>)
    requires
        !before.contains(separator),
    ensures
        split_fields(before + seq![separator] + after, separator) == seq![before] + split_fields(
            after,
            separator,
        ),
{
    lemma_split_fields_first(before, separator, after);
}

/// A text without the separator is its own only field.
pub proof fn law_only_field(s: Seq<char>, separator: char)
    requires
        !s.contains(separator),
    ensures
        split_fields(s, separator) == seq![s],
{
    lemma_split_fields_last(s, separator);
}

/// Joined fields follow each other with one separator between each two.
pub proof fn law_joined_fields(first: Seq<char>, others: Seq<Seq<char>>, separator: char)
    ensures
        join_fields(seq![first], separator) == first,
        others.len() >= 1 ==> join_fields(seq![first] + others, separator) == first
            + seq![separator] + join_fields(others, separator),
{
    if others.len() >= 1 {
        assert((seq![first] + others).drop_first() =~= others);
    }
}

/// A character with an ASCII scalar value is an ASCII character.
proof fn lemma_ascii_scalar(c: char)
    requires
        c as u32 <= 0x7f,
    ensures
        '\0' <= c <= '\u{7f}',
{
}

/// A text whose UTF-8 encoding holds nothing but ASCII is an ASCII text.
pub proof fn lemma_ascii_from_bytes(s: Seq<char>)
    requires
        forall|i: int| 0 <= i < encode_utf8(s).len() ==> #[trigger] encode_utf8(s)[i] < 0x80,
    ensures
        is_ascii_chars(s),
    decreases s.len(),
{
    if s.len() > 0 {
        let bytes = encode_utf8(s);
        let rest = s.drop_first();
        encode_utf8_first_scalar(s);
        assert(bytes[0] < 0x80);
        let first = bytes[0];
        assert(first & 0x7f <= 0x7f) by (bit_vector);
        assert(s[0] as u32 <= 0x7f);
        assert(encode_utf8(rest) =~= bytes.skip(1));
        assert forall|i: int| 0 <= i < encode_utf8(rest).len() implies #[trigger] encode_utf8(
            rest,
        )[i] < 0x80 by {
            assert(encode_utf8(rest)[i] == bytes[i + 1]);
        }
        lemma_ascii_from_bytes(rest);
        assert forall|i: int| 0 <= i < s.len() implies '\0' <= #[trigger] s[i] <= '\u{7f}' by {
            if i > 0 {
                assert(s[i] == rest[i - 1]);
            } else {
                lemma_ascii_scalar(s[0]);
            }
        }
    }
}

/// An ASCII character of a text stands as a byte of its own in the encoding.
pub proof fn lemma_char_in_bytes(s: Seq<char>, c: char)
    requires
        c as u32 <= 0x7f,
        s.contains(c),
    ensures
        encode_utf8(s).contains(c as u8),
    decreases s.len(),
{
    let bytes = encode_utf8(s);
    let at = choose|i: int| 0 <= i < s.len() && s[i] == c;
    if s[0] == c {
        let scalar = c as u32;
        assert(scalar as u8 == leading_byte_width_1(scalar)) by (bit_vector)
            requires
                has_width_1_encoding(scalar),
        ;
        assert(bytes[0] == c as u8);
    } else {
        let rest = s.drop_first();
        assert(rest[at - 1] == c);
        lemma_char_in_bytes(rest, c);
        let head = encode_scalar(s[0] as u32);
        let j = choose|j: int| 0 <= j < encode_utf8(rest).len() && encode_utf8(rest)[j] == c as u8;
        assert(bytes[head.len() + j] == c as u8);
    }
}

/// The encoding of a single ASCII character.
pub proof fn lemma_single_byte(s: Seq<char>, c: char)
    requires
        c as u32 <= 0x7f,
        encode_utf8(s) == seq![c as u8],
    ensures
        s == seq![c],
{
    let single = seq![c];
    assert(is_ascii_chars(single));
    is_ascii_chars_encode_utf8(single);
    assert(encode_utf8(single) =~= seq![c as u8]);
    encode_utf8_decode_utf8(single);
    encode_utf8_decode_utf8(s);
}

/// The two parts of a text whose byte `k` is an ASCII character, without that
/// character.
fn cut_at<'a>(s: &'a str, k: usize, separator: char) -> (parts: (&'a str, &'a str))
    requires
        separator as u32 <= 0x7f,
        k < s.spec_bytes().len(),
        s.spec_bytes()[k as int] == separator as u8,
    ensures
        s@ == parts.0@ + seq![separator] + parts.1@,
        parts.0.spec_bytes() == s.spec_bytes().take(k as int),
        parts.1.spec_bytes() == s.spec_bytes().skip(k + 1),
{
    let ghost bytes = s.spec_bytes();
    proof {
        encode_utf8_valid_utf8(s@);
        is_char_boundary_iff_not_is_continuation_byte(bytes, k as int);
        decode_utf8_split(bytes, k as int);
        encode_utf8_decode_utf8(s@);
    }
    let (before, rest) = s.split_at(k);
    proof {
        encode_utf8_decode_utf8(before@);
        encode_utf8_decode_utf8(rest@);
        encode_utf8_valid_utf8(rest@);
        assert(rest.spec_bytes()[0] == separator as u8);
        reveal_with_fuel(is_char_boundary, 2);
        assert(is_char_boundary(rest.spec_bytes(), 1));
        decode_utf8_split(rest.spec_bytes(), 1);
    }
    let (mark, after) = rest.split_at(1);
    proof {
        encode_utf8_decode_utf8(mark@);
        encode_utf8_decode_utf8(after@);
        assert(mark.spec_bytes() =~= seq![separator as u8]);
        lemma_single_byte(mark@, separator);
        assert(after.spec_bytes() =~= bytes.skip(k + 1));
        assert(before.spec_bytes() =~= bytes.take(k as int));
    }
    (before, after)
}

/// The parts of a text before and behind its first separator.
pub(crate) fn split_first<'a>(s: &'a str, separator: char) -> (parts: Option<(&'a str, &'a str)>)
    requires
        separator as u32 <= 0x7f,
    ensures
        parts is Some <==> s@.contains(separator),
        parts matches Some((before, after)) ==> s@ == before@ + seq![separator] + after@
            && !before@.contains(separator),
{
    let bytes = s.as_bytes();
    let mark = separator as u8;
    let mut k: usize = 0;
    while k < bytes.len()
        invariant
            k <= bytes@.len(),
            bytes@ == s.spec_bytes(),
            mark == separator as u8,
            separator as u32 <= 0x7f,
            forall|j: int| 0 <= j < k ==> bytes@[j] != mark,
        decreases bytes@.len() - k,
    {
        if bytes[k] == mark {
            let (before, after) = cut_at(s, k, separator);
            proof {
                if before@.contains(separator) {
                    lemma_char_in_bytes(before@, separator);
                    let j = choose|j: int|
                        0 <= j < before.spec_bytes().len() && before.spec_bytes()[j] == mark;
                    assert(bytes@[j] == mark);
                }
                assert(s@[before@.len() as int] == separator);
            }
            return Some((before, after));
        }
        k = k + 1;
    }
    proof {
        if s@.contains(separator) {
            lemma_char_in_bytes(s@, separator);
        }
    }
    None
}

/// The parts of a text before and behind its last separator.
pub(crate) fn split_last<'a>(s: &'a str, separator: char) -> (parts: Option<(&'a str, &'a str)>)
    requires
        separator as u32 <= 0x7f,
    ensures
        parts is Some <==> s@.contains(separator),
        parts matches Some((before, after)) ==> s@ == before@ + seq![separator] + after@
            && !after@.contains(separator),
{
    let bytes = s.as_bytes();
    let mark = separator as u8;
    let mut k: usize = bytes.len();
    while k > 0
        invariant
            k <= bytes@.len(),
            bytes@ == s.spec_bytes(),
            mark == separator as u8,
            separator as u32 <= 0x7f,
            forall|j: int| k <= j < bytes@.len() ==> bytes@[j] != mark,
        decreases k,
    {
        k = k - 1;
        if bytes[k] == mark {
            let (before, after) = cut_at(s, k, separator);
            proof {
                if after@.contains(separator) {
                    lemma_char_in_bytes(after@, separator);
                    let j = choose|j: int|
                        0 <= j < after.spec_bytes().len() && after.spec_bytes()[j] == mark;
                    assert(bytes@[k + 1 + j] == mark);
                }
                assert(s@[before@.len() as int] == separator);
            }
            return Some((before, after));
        }
    }
    proof {
        if s@.contains(separator) {
            lemma_char_in_bytes(s@, separator);
        }
    }
    None
}

} // verus!
