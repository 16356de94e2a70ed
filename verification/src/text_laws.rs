//! What numerals, trimmed texts and encoded texts are, said by what can be read
//! back from them.
use crate::text::{decimal, decoded, digits, is_white_space, spelled, trim_end, trim_start, trimmed, units, utf16};
use vstd::prelude::*;
use vstd::utf8::{decode_utf8_encode_utf8, encode_utf8, encode_utf8_decode_utf8, encode_utf8_valid_utf8, valid_utf8};

verus! {

/// `text` is a row of digits that spells `n`, without needless zeros in front.
pub open spec fn is_numeral(text: Seq<char>, n: int) -> bool {
    &&& text.len() > 0
    &&& forall|i: int| 0 <= i < text.len() ==> '0' <= #[trigger] text[i] <= '9'
    &&& text[0] == '0' ==> text.len() == 1
    &&& spelled(text) == n
}

/// `text` spells the integer `n`, with a minus sign in front where it is
/// negative.
pub open spec fn is_integer_text(text: Seq<char>, n: int) -> bool {
    if n < 0 {
        text.len() > 0 && text[0] == '-' && is_numeral(text.skip(1), -n)
    } else {
        is_numeral(text, n)
    }
}

/// What a row of digits spells depends on nothing but the digits, each of which
/// counts ten times what the one after it counts.
pub proof fn digits_have_places(text: Seq<char>, c: char)
    ensures
        spelled(text.push(c)) == 10 * spelled(text) + (c as int - '0' as int),
        spelled(Seq::empty()) == 0,
{
    assert(text.push(c).drop_last() =~= text);
}

/// An integer is written so that it can be read back: the text spells it.
pub proof fn integers_are_spelled(n: int)
    ensures
        is_integer_text(decimal(n), n),
{
    if n < 0 {
        lemma_digits_are_a_numeral((-n) as nat);
        assert(decimal(n).skip(1) =~= digits((-n) as nat));
    } else {
        lemma_digits_are_a_numeral(n as nat);
    }
}

proof fn lemma_digits_are_a_numeral(n: nat)
    ensures
        is_numeral(digits(n), n as int),
        n > 0 ==> digits(n)[0] != '0',
    decreases n,
{
    if n >= 10 {
        lemma_digits_are_a_numeral(n / 10);
        digits_have_places(digits(n / 10), digits(n).last());
        assert(digits(n) =~= digits(n / 10).push(digits(n).last()));
    } else {
        digits_have_places(Seq::empty(), digits(n)[0]);
        assert(digits(n) =~= Seq::empty().push(digits(n)[0]));
    }
}

/// There is one way to write an integer.
pub proof fn integer_text_is_unique(a: Seq<char>, b: Seq<char>, n: int)
    requires
        is_integer_text(a, n),
        is_integer_text(b, n),
    ensures
        a == b,
{
    if n < 0 {
        lemma_numeral_is_unique(a.skip(1), b.skip(1), -n);
        assert(a =~= seq!['-'] + a.skip(1));
        assert(b =~= seq!['-'] + b.skip(1));
    } else {
        lemma_numeral_is_unique(a, b, n);
    }
}

proof fn lemma_numeral_is_positive(text: Seq<char>)
    requires
        text.len() > 0,
        forall|i: int| 0 <= i < text.len() ==> '0' <= #[trigger] text[i] <= '9',
        text[0] != '0',
    ensures
        spelled(text) > 0,
    decreases text.len(),
{
    if text.len() > 1 {
        lemma_numeral_is_positive(text.drop_last());
    } else {
        assert(text.drop_last() =~= Seq::empty());
        assert(spelled(text.drop_last()) == 0);
    }
}

proof fn lemma_numeral_shrinks(text: Seq<char>, n: int)
    requires
        is_numeral(text, n),
    ensures
        text.last() as int == '0' as int + n % 10,
        text.len() == 1 <==> n < 10,
        n >= 0,
        text.len() > 1 ==> is_numeral(text.drop_last(), n / 10),
{
    let rest = text.drop_last();
    if text.len() > 1 {
        lemma_numeral_is_positive(text);
        lemma_numeral_is_positive(rest);
        assert(rest[0] == text[0]);
    } else {
        assert(rest =~= Seq::empty());
        assert(spelled(rest) == 0);
    }
    assert('0' <= text[text.len() - 1] <= '9');
}

proof fn lemma_numeral_is_unique(a: Seq<char>, b: Seq<char>, n: int)
    requires
        is_numeral(a, n),
        is_numeral(b, n),
    ensures
        a == b,
    decreases a.len(),
{
    lemma_numeral_shrinks(a, n);
    lemma_numeral_shrinks(b, n);
    if a.len() > 1 {
        lemma_numeral_is_unique(a.drop_last(), b.drop_last(), n / 10);
        assert(a =~= a.drop_last().push(a.last()));
        assert(b =~= b.drop_last().push(b.last()));
    } else {
        assert(a =~= b);
    }
}

/// The code points of the characters that count as white space.
pub open spec fn white_space_points() -> Seq<int> {
    seq![
        0x9, 0xA, 0xB, 0xC, 0xD, 0x20, 0x85, 0xA0, 0x1680, 0x2000, 0x2001, 0x2002, 0x2003, 0x2004, 0x2005, 0x2006,
        0x2007, 0x2008, 0x2009, 0x200A, 0x2028, 0x2029, 0x202F, 0x205F, 0x3000,
    ]
}

/// A character is white space where its code point is listed, and only there.
pub proof fn white_space_is_listed(c: char)
    ensures
        is_white_space(c) <==> white_space_points().contains(c as int),
{
    let all = white_space_points();
    let n = c as int;
    if is_white_space(c) {
        let at: int = if n <= 0xD {
            n - 9
        } else if n == 0x20 {
            5
        } else if n == 0x85 {
            6
        } else if n == 0xA0 {
            7
        } else if n == 0x1680 {
            8
        } else if n <= 0x200A {
            n - 0x2000 + 9
        } else if n == 0x2028 {
            20
        } else if n == 0x2029 {
            21
        } else if n == 0x202F {
            22
        } else if n == 0x205F {
            23
        } else {
            24
        };
        assert(all[at] == n);
    }
}

/// A text of white space only.
pub open spec fn is_blank(s: Seq<char>) -> bool {
    forall|i: int| 0 <= i < s.len() ==> is_white_space(#[trigger] s[i])
}

/// Whether a text neither starts nor ends with white space.
pub open spec fn is_bare(s: Seq<char>) -> bool {
    s.len() > 0 ==> !is_white_space(s.first()) && !is_white_space(s.last())
}

/// Trimming takes away the white space around a text and nothing else.
pub proof fn padding_is_trimmed(before: Seq<char>, s: Seq<char>, after: Seq<char>)
    requires
        is_blank(before),
        is_bare(s),
        is_blank(after),
    ensures
        trimmed(before + s + after) == s,
{
    assert(before + s + after =~= before + (s + after));
    lemma_blank_start(before, s + after);
    if s.len() > 0 {
        assert((s + after).first() == s.first());
        lemma_blank_end(s, after);
    } else {
        assert(s + after =~= after + s);
        lemma_blank_start(after, s);
    }
}

proof fn lemma_blank_start(before: Seq<char>, s: Seq<char>)
    requires
        is_blank(before),
    ensures
        trim_start(before + s) == trim_start(s),
    decreases before.len(),
{
    if before.len() > 0 {
        assert(is_white_space(before[0]));
        assert((before + s).drop_first() =~= before.drop_first() + s);
        assert forall|i: int| 0 <= i < before.drop_first().len() implies is_white_space(
            #[trigger] before.drop_first()[i],
        ) by {
            assert(is_white_space(before[i + 1]));
        }
        lemma_blank_start(before.drop_first(), s);
    } else {
        assert(before + s =~= s);
    }
}

proof fn lemma_blank_end(s: Seq<char>, after: Seq<char>)
    requires
        is_blank(after),
    ensures
        trim_end(s + after) == trim_end(s),
    decreases after.len(),
{
    if after.len() > 0 {
        assert(is_white_space(after[after.len() - 1]));
        assert((s + after).drop_last() =~= s + after.drop_last());
        assert forall|i: int| 0 <= i < after.drop_last().len() implies is_white_space(
            #[trigger] after.drop_last()[i],
        ) by {
            assert(is_white_space(after[i]));
        }
        lemma_blank_end(s, after.drop_last());
    } else {
        assert(s + after =~= s);
    }
}

/// Bytes are decoded into the text whose encoding they are, and bytes that are
/// no text's encoding are refused.
pub proof fn decoding_undoes_encoding(bytes: Seq<u8>, text: Seq<char>)
    ensures
        decoded(bytes) == Some(text) <==> encode_utf8(text) == bytes,
        decoded(encode_utf8(text)) == Some(text),
        decoded(bytes) matches Some(t) ==> encode_utf8(t) == bytes,
{
    encode_utf8_valid_utf8(text);
    encode_utf8_decode_utf8(text);
    if valid_utf8(bytes) {
        decode_utf8_encode_utf8(bytes);
    }
}

/// A character of the basic plane is its own code unit; of any other, the two
/// code units hold the upper and the lower ten bits of its distance from that
/// plane.
pub proof fn code_units_hold_the_character(c: char)
    ensures
        (c as int) < 0x1_0000 ==> units(c).len() == 1 && units(c)[0] == c as int,
        (c as int) >= 0x1_0000 ==> {
            &&& units(c).len() == 2
            &&& 0xD800 <= units(c)[0] < 0xDC00
            &&& 0xDC00 <= units(c)[1] < 0xE000
            &&& c as int == 0x1_0000 + 0x400 * (units(c)[0] - 0xD800) + (units(c)[1] - 0xDC00)
        },
{
}

/// Texts are encoded character by character: the code units of two texts, one
/// after the other, are those of the two texts joined.
pub proof fn code_units_are_joined(a: Seq<char>, b: Seq<char>, c: char)
    ensures
        utf16(a + b) == utf16(a) + utf16(b),
        utf16(seq![c]) == units(c),
        utf16(Seq::empty()) == Seq::<u16>::empty(),
    decreases b.len(),
{
    assert(utf16(Seq::empty()) =~= Seq::<u16>::empty());
    assert(seq![c].drop_last() =~= Seq::empty());
    assert(seq![c].last() == c);
    assert(utf16(seq![c]) =~= units(c));
    if b.len() == 0 {
        assert(a + b =~= a);
        assert(utf16(a) + utf16(b) =~= utf16(a));
    } else {
        code_units_are_joined(a, b.drop_last(), c);
        assert((a + b).drop_last() =~= a + b.drop_last());
        assert(utf16(a + b) =~= utf16(a) + utf16(b));
    }
}

} // verus!
