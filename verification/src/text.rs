//! Text: decimal numerals, white space, UTF-8 and UTF-16.
use vstd::prelude::*;
use vstd::utf8::{decode_utf8, encode_utf8, encode_utf8_decode_utf8, valid_utf8};

verus! {

/// The digit character for a value below ten.
pub open spec fn digit(d: nat) -> char {
    (48 + d) as char
}

/// The decimal numeral of a natural number, without leading zeros.
pub open spec fn digits(n: nat) -> Seq<char>
    decreases n,
{
    if n < 10 {
        seq![digit(n)]
    } else {
        digits(n / 10).push(digit(n % 10))
    }
}

/// The decimal numeral of an integer, with a minus sign where it is negative.
pub open spec fn decimal(n: int) -> Seq<char> {
    if n < 0 {
        seq!['-'] + digits((-n) as nat)
    } else {
        digits(n as nat)
    }
}

fn digit_text(d: u64) -> (r: &'static str)
    requires
        d < 10,
    ensures
        r@ == seq![digit(d as nat)],
{
    proof {
        reveal_strlit("0");
        reveal_strlit("1");
        reveal_strlit("2");
        reveal_strlit("3");
        reveal_strlit("4");
        reveal_strlit("5");
        reveal_strlit("6");
        reveal_strlit("7");
        reveal_strlit("8");
        reveal_strlit("9");
    }
    match d {
        0 => "0",
        1 => "1",
        2 => "2",
        3 => "3",
        4 => "4",
        5 => "5",
        6 => "6",
        7 => "7",
        8 => "8",
        _ => "9",
    }
}

fn digits_of(n: u64) -> (r: String)
    ensures
        r@ == digits(n as nat),
    decreases n,
{
    if n < 10 {
        digit_text(n).to_string()
    } else {
        let mut r = digits_of(n / 10);
        r.append(digit_text(n % 10));
        r
    }
}

/// Writes an integer in decimal.
pub fn decimal_text(n: i64) -> (r: String)
    ensures
        r@ == decimal(n as int),
{
    if n < 0 {
        let magnitude: u64 = (-(n + 1)) as u64 + 1;
        let mut r = "-".to_string();
        proof {
            reveal_strlit("-");
        }
        r.append(digits_of(magnitude).as_str());
        r
    } else {
        digits_of(n as u64)
    }
}

/// Joins three pieces of text.
pub fn join(a: &str, b: &str, c: &str) -> (r: String)
    ensures
        r@ == a@ + b@ + c@,
{
    let mut r = a.to_string();
    r.append(b);
    r.append(c);
    r
}

/// The characters with the Unicode property `White_Space`.
pub open spec fn is_white_space(c: char) -> bool {
    let n = c as int;
    ||| 0x9 <= n <= 0xD
    ||| n == 0x20
    ||| n == 0x85
    ||| n == 0xA0
    ||| n == 0x1680
    ||| 0x2000 <= n <= 0x200A
    ||| n == 0x2028
    ||| n == 0x2029
    ||| n == 0x202F
    ||| n == 0x205F
    ||| n == 0x3000
}

/// Whether a character is white space.
pub fn white_space(c: char) -> (r: bool)
    ensures
        r == is_white_space(c),
{
    let n: u32 = c as u32;
    (0x9 <= n && n <= 0xD) || n == 0x20 || n == 0x85 || n == 0xA0 || n == 0x1680 || (0x2000 <= n && n
        <= 0x200A) || n == 0x2028 || n == 0x2029 || n == 0x202F || n == 0x205F || n == 0x3000
}

/// `s` without the white space that it starts with.
pub open spec fn trim_start(s: Seq<char>) -> Seq<char>
    decreases s.len(),
{
    if s.len() > 0 && is_white_space(s.first()) {
        trim_start(s.drop_first())
    } else {
        s
    }
}

/// `s` without the white space that it ends with.
pub open spec fn trim_end(s: Seq<char>) -> Seq<char>
    decreases s.len(),
{
    if s.len() > 0 && is_white_space(s.last()) {
        trim_end(s.drop_last())
    } else {
        s
    }
}

/// `s` without the white space around it.
pub open spec fn trimmed(s: Seq<char>) -> Seq<char> {
    trim_end(trim_start(s))
}

/// Removes the white space around a text.
pub fn trim<'a>(s: &'a str) -> (r: &'a str)
    ensures
        r@ == trimmed(s@),
{
    let len: usize = s.unicode_len();
    let mut from: usize = 0;
    proof {
        assert(s@.subrange(0, len as int) =~= s@);
    }
    while from < len && white_space(s.get_char(from))
        invariant
            from <= len,
            len == s@.len(),
            trim_start(s@) == trim_start(s@.subrange(from as int, len as int)),
        decreases len - from,
    {
        proof {
            assert(s@.subrange(from as int, len as int).drop_first() =~= s@.subrange(from + 1, len as int));
        }
        from = from + 1;
    }
    let ghost body = s@.subrange(from as int, len as int);
    assert(trim_start(s@) == body);
    let mut to: usize = len;
    while from < to && white_space(s.get_char(to - 1))
        invariant
            from <= to <= len,
            len == s@.len(),
            trim_end(body) == trim_end(s@.subrange(from as int, to as int)),
        decreases to,
    {
        proof {
            assert(s@.subrange(from as int, to as int).drop_last() =~= s@.subrange(from as int, to - 1));
        }
        to = to - 1;
    }
    s.substring_char(from, to)
}

/// The text that bytes spell in UTF-8, where they do.
pub open spec fn decoded(bytes: Seq<u8>) -> Option<Seq<char>> {
    if valid_utf8(bytes) {
        Some(decode_utf8(bytes))
    } else {
        None
    }
}

/// Calls `String::from_utf8`: it succeeds exactly on valid UTF-8, and gives the
/// text whose encoding these bytes are.
#[verifier::external_body]
fn string_from_utf8(bytes: Vec<u8>) -> (r: Option<String>)
    ensures
        match r {
            Some(s) => valid_utf8(bytes@) && encode_utf8(s@) == bytes@,
            None => !valid_utf8(bytes@),
        },
{
    String::from_utf8(bytes).ok()
}

/// Decodes UTF-8.
pub fn decode(bytes: Vec<u8>) -> (r: Option<String>)
    ensures
        match r {
            Some(s) => decoded(bytes@) == Some(s@),
            None => decoded(bytes@) is None,
        },
{
    let r = string_from_utf8(bytes);
    proof {
        if r is Some {
            encode_utf8_decode_utf8(r->Some_0@);
        }
    }
    r
}

/// The UTF-16 code units of one character.
pub open spec fn units(c: char) -> Seq<u16> {
    let n = c as int;
    if n < 0x10000 {
        seq![n as u16]
    } else {
        seq![(0xD800 + (n - 0x10000) / 0x400) as u16, (0xDC00 + (n - 0x10000) % 0x400) as u16]
    }
}

/// The UTF-16 code units of a text.
pub open spec fn utf16(s: Seq<char>) -> Seq<u16>
    decreases s.len(),
{
    if s.len() == 0 {
        Seq::empty()
    } else {
        utf16(s.drop_last()) + units(s.last())
    }
}

fn push_units(r: &mut Vec<u16>, c: char)
    ensures
        final(r)@ == old(r)@ + units(c),
{
    let n: u32 = c as u32;
    if n < 0x10000 {
        r.push(n as u16);
    } else {
        r.push((0xD800 + (n - 0x10000) / 0x400) as u16);
        r.push((0xDC00 + (n - 0x10000) % 0x400) as u16);
    }
    assert(r@ =~= old(r)@ + units(c));
}

/// Encodes a text as UTF-16 with a terminating zero.
pub fn to_wide(s: &str) -> (r: Vec<u16>)
    ensures
        r@ == utf16(s@).push(0),
{
    let mut r: Vec<u16> = Vec::new();
    proof {
        assert(s@.take(0) =~= Seq::empty());
    }
    for c in it: s.chars()
        invariant
            it.seq() == s@,
            r@ == utf16(s@.take(it.index() as int)),
    {
        proof {
            assert(s@.take(it.index() + 1).drop_last() =~= s@.take(it.index() as int));
        }
        push_units(&mut r, c);
        assert(s@.take(it.index() + 1).last() == c);
    }
    proof {
        assert(s@.take(s@.len() as int) =~= s@);
    }
    r.push(0);
    r
}

/// The number that a row of digits spells.
pub open spec fn spelled(s: Seq<char>) -> int
    decreases s.len(),
{
    if s.len() == 0 {
        0
    } else {
        10 * spelled(s.drop_last()) + (s.last() as int - 48)
    }
}

/// A numeral consists of digits and spells its number.
pub proof fn digits_spell_the_number(n: nat)
    ensures
        spelled(digits(n)) == n,
        digits(n).len() > 0,
        forall|i: int| 0 <= i < digits(n).len() ==> '0' <= #[trigger] digits(n)[i] <= '9',
    decreases n,
{
    if n >= 10 {
        digits_spell_the_number(n / 10);
        assert(digits(n).drop_last() =~= digits(n / 10));
    } else {
        assert(digits(n).drop_last() =~= Seq::empty());
        assert(spelled(Seq::empty()) == 0);
    }
}

/// A trimmed text neither starts nor ends with white space, and trimming it
/// again changes nothing.
pub proof fn trimming_is_thorough(s: Seq<char>)
    ensures
        trimmed(s).len() > 0 ==> !is_white_space(trimmed(s).first()) && !is_white_space(trimmed(s).last()),
        trimmed(trimmed(s)) == trimmed(s),
{
    lemma_trim_start(s);
    lemma_trim_end(trim_start(s));
    let t = trimmed(s);
    assert(trim_start(t) == t);
    assert(trim_end(t) == t);
}

proof fn lemma_trim_start(s: Seq<char>)
    ensures
        trim_start(s).len() > 0 ==> !is_white_space(trim_start(s).first()),
    decreases s.len(),
{
    if s.len() > 0 && is_white_space(s.first()) {
        lemma_trim_start(s.drop_first());
    }
}

proof fn lemma_trim_end(s: Seq<char>)
    ensures
        trim_end(s).len() > 0 ==> !is_white_space(trim_end(s).last()) && trim_end(s).first() == s.first(),
    decreases s.len(),
{
    if s.len() > 0 && is_white_space(s.last()) {
        lemma_trim_end(s.drop_last());
        if s.drop_last().len() > 0 {
            assert(s.drop_last().first() == s.first());
        }
    }
}

/// UTF-16 loses nothing: texts with the same code units are the same.
pub proof fn utf16_is_faithful(a: Seq<char>, b: Seq<char>)
    requires
        utf16(a) == utf16(b),
    ensures
        a == b,
    decreases a.len(),
{
    if a.len() == 0 || b.len() == 0 {
        if a.len() > 0 {
            assert(utf16(a).len() > 0);
        }
        if b.len() > 0 {
            assert(utf16(b).len() > 0);
        }
        assert(a =~= b);
    } else {
        let u = utf16(a);
        let x = a.last();
        let y = b.last();
        let p = utf16(a.drop_last());
        let q = utf16(b.drop_last());
        assert(u == p + units(x) && u == q + units(y));
        lemma_units(x);
        lemma_units(y);
        assert(u.last() == units(x).last());
        assert(u.last() == units(y).last());
        assert(units(x).len() == units(y).len());
        assert(p.len() == q.len());
        assert(p =~= u.take(p.len() as int));
        assert(q =~= u.take(q.len() as int));
        assert(units(x) =~= u.skip(p.len() as int));
        assert(units(y) =~= u.skip(p.len() as int));
        lemma_units_are_faithful(x, y);
        utf16_is_faithful(a.drop_last(), b.drop_last());
        assert(a =~= a.drop_last().push(x));
        assert(b =~= b.drop_last().push(y));
    }
}

/// A character has one code unit, outside the surrogates, or two, of which the
/// last is a low surrogate.
proof fn lemma_units(c: char)
    ensures
        1 <= units(c).len() <= 2,
        units(c).len() == 2 <==> 0xDC00 <= units(c).last() <= 0xDFFF,
{
}

proof fn lemma_units_are_faithful(x: char, y: char)
    requires
        units(x) == units(y),
    ensures
        x == y,
{
    let m = x as int;
    let n = y as int;
    if m < 0x10000 {
        assert(units(x)[0] == m);
        assert(units(y)[0] == n);
    } else {
        assert(units(x)[0] == 0xD800 + (m - 0x10000) / 0x400);
        assert(units(y)[0] == 0xD800 + (n - 0x10000) / 0x400);
        assert(units(x)[1] == 0xDC00 + (m - 0x10000) % 0x400);
        assert(units(y)[1] == 0xDC00 + (n - 0x10000) % 0x400);
    }
}

} // verus!
