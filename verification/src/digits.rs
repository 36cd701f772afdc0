//! Decimal and hexadecimal text for the address codec: rendering of numbers
//! into strings, reading of single digit characters, and the facts about
//! canonical decimal text that the address parsers rest on.
#![allow(unused_imports)]
use vstd::prelude::*;
use vstd::string::*;
use vstd::arithmetic::div_mod::*;

verus! {

/// Relies on `String::push`: appends the given character at the end of the string.
pub assume_specification[ String::push ](s: &mut String, ch: char)
    ensures
        final(s)@ == old(s)@.push(ch),
;

/// The character for the decimal digit `d`.
pub open spec fn dec_char(d: nat) -> char
    recommends
        d < 10,
{
    (48 + d) as char
}

/// The character for the hexadecimal digit `d`, lower case.
pub open spec fn hex_char(d: nat) -> char
    recommends
        d < 16,
{
    if d < 10 {
        (48 + d) as char
    } else {
        (87 + d) as char
    }
}

pub open spec fn is_dec_digit(c: char) -> bool {
    48 <= c as int && c as int <= 57
}

pub open spec fn is_hex_digit(c: char) -> bool {
    (48 <= c as int && c as int <= 57) || (97 <= c as int && c as int <= 102)
}

/// Decimal text of `n`: most significant digit first, no leading zeros
/// (a single `'0'` for zero itself).
pub open spec fn dec_text(n: nat) -> Seq<char>
    decreases n,
{
    if n < 10 {
        seq![dec_char(n)]
    } else {
        dec_text(n / 10).push(dec_char(n % 10))
    }
}

/// Fixed-width hexadecimal text of one 16-bit group: always four digits.
pub open spec fn hex4(g: u16) -> Seq<char> {
    seq![
        hex_char((g as nat / 4096) % 16),
        hex_char((g as nat / 256) % 16),
        hex_char((g as nat / 16) % 16),
        hex_char(g as nat % 16),
    ]
}

/// Appends the decimal text of `n` to `s`.
pub fn push_dec_u16(s: &mut String, n: u16)
    ensures
        final(s)@ == old(s)@ + dec_text(n as nat),
    decreases n,
{
    if n >= 10 {
        push_dec_u16(s, n / 10);
    }
    let d: u8 = (n % 10) as u8;
    s.push((48 + d) as char);
    proof {
        assert(((48 + d) as char) == dec_char((n % 10) as nat));
        if n < 10 {
            assert(old(s)@ + dec_text(n as nat) =~= old(s)@.push(dec_char(n as nat)));
        } else {
            assert(old(s)@ + dec_text(n as nat) =~= (old(s)@ + dec_text((n / 10) as nat)).push(
                dec_char((n % 10) as nat),
            ));
        }
    }
}

/// The exec counterpart of `hex_char`.
pub fn hex_digit_char(d: u8) -> (r: char)
    requires
        d < 16,
    ensures
        r == hex_char(d as nat),
{
    if d < 10 {
        (48 + d) as char
    } else {
        (87 + d) as char
    }
}

/// Appends the four-digit hexadecimal text of `g` to `s`.
pub fn push_hex4(s: &mut String, g: u16)
    ensures
        final(s)@ == old(s)@ + hex4(g),
{
    s.push(hex_digit_char(((g / 4096) % 16) as u8));
    s.push(hex_digit_char(((g / 256) % 16) as u8));
    s.push(hex_digit_char(((g / 16) % 16) as u8));
    s.push(hex_digit_char((g % 16) as u8));
    proof {
        assert(old(s)@ + hex4(g) =~= old(s)@.push(hex_char((g as nat / 4096) % 16)).push(
            hex_char((g as nat / 256) % 16),
        ).push(hex_char((g as nat / 16) % 16)).push(hex_char(g as nat % 16)));
    }
}

/// The decimal value of `c`, when `c` is a decimal digit character.
pub fn dec_val(c: char) -> (r: Option<u8>)
    ensures
        r is Some <==> is_dec_digit(c),
        r matches Some(d) ==> d < 10 && c == dec_char(d as nat),
{
    let u = c as u32;
    if 48 <= u && u <= 57 {
        Some((u - 48) as u8)
    } else {
        None
    }
}

/// The hexadecimal value of `c`, when `c` is a lower-case hex digit character.
pub fn hex_val(c: char) -> (r: Option<u8>)
    ensures
        r is Some <==> is_hex_digit(c),
        r matches Some(d) ==> d < 16 && c == hex_char(d as nat),
{
    let u = c as u32;
    if 48 <= u && u <= 57 {
        Some((u - 48) as u8)
    } else if 97 <= u && u <= 102 {
        Some((u - 87) as u8)
    } else {
        None
    }
}

/// Every character of decimal text is a decimal digit.
pub proof fn lemma_dec_text_digits(n: nat)
    ensures
        dec_text(n).len() >= 1,
        forall|i: int| 0 <= i < dec_text(n).len() ==> is_dec_digit(#[trigger] dec_text(n)[i]),
    decreases n,
{
    if n >= 10 {
        lemma_dec_text_digits(n / 10);
    }
}

/// A digit character determines its digit.
pub proof fn lemma_dec_char_inj(a: nat, b: nat)
    requires
        a < 10,
        b < 10,
        dec_char(a) == dec_char(b),
    ensures
        a == b,
{
    assert(dec_char(a) as int == 48 + a);
    assert(dec_char(b) as int == 48 + b);
}

/// A hexadecimal digit character determines its digit.
pub proof fn lemma_hex_char_inj(a: nat, b: nat)
    requires
        a < 16,
        b < 16,
        hex_char(a) == hex_char(b),
    ensures
        a == b,
{
    if a < 10 {
        assert(hex_char(a) as int == 48 + a);
    } else {
        assert(hex_char(a) as int == 87 + a);
    }
    if b < 10 {
        assert(hex_char(b) as int == 48 + b);
    } else {
        assert(hex_char(b) as int == 87 + b);
    }
}

/// Hexadecimal digit characters are hexadecimal digits.
pub proof fn lemma_hex_char_is_hex(k: nat)
    requires
        k < 16,
    ensures
        is_hex_digit(hex_char(k)),
{
    if k < 10 {
        assert(hex_char(k) as int == 48 + k);
    } else {
        assert(hex_char(k) as int == 87 + k);
    }
}

/// The length and leading digit of decimal text for numbers under 1000.
pub proof fn lemma_dec_text_facts(n: nat)
    requires
        n < 1000,
    ensures
        n < 10 ==> dec_text(n).len() == 1,
        10 <= n < 100 ==> dec_text(n).len() == 2,
        100 <= n ==> dec_text(n).len() == 3,
        n >= 10 ==> dec_text(n)[0] != dec_char(0),
{
    lemma_dec_text_shape(n);
    if 10 <= n && n < 100 {
        assert(n / 10 >= 1);
        if dec_text(n)[0] == dec_char(0) {
            lemma_dec_char_inj((n / 10) as nat, 0);
        }
    } else if 100 <= n {
        assert(n / 100 >= 1);
        if dec_text(n)[0] == dec_char(0) {
            lemma_dec_char_inj((n / 100) as nat, 0);
        }
    }
}

/// Decimal text determines the number: no two numbers share their text.
pub proof fn lemma_dec_text_inj(m: nat, n: nat)
    requires
        dec_text(m) == dec_text(n),
    ensures
        m == n,
    decreases m,
{
    lemma_dec_text_digits(m / 10);
    lemma_dec_text_digits(n / 10);
    if m < 10 && n < 10 {
        assert(dec_text(m)[0] == dec_char(m));
        assert(dec_text(n)[0] == dec_char(n));
        assert(dec_text(m)[0] == dec_text(n)[0]);
        lemma_dec_char_inj(m, n);
    } else if m < 10 {
        assert(dec_text(n).len() >= 2);
        assert(false);
    } else if n < 10 {
        assert(dec_text(m).len() >= 2);
        assert(false);
    } else {
        assert(dec_text(m).last() == dec_char(m % 10));
        assert(dec_text(n).last() == dec_char(n % 10));
        lemma_dec_char_inj(m % 10, n % 10);
        assert(dec_text(m).drop_last() =~= dec_text(m / 10));
        assert(dec_text(n).drop_last() =~= dec_text(n / 10));
        lemma_dec_text_inj(m / 10, n / 10);
        lemma_fundamental_div_mod(m as int, 10);
        lemma_fundamental_div_mod(n as int, 10);
    }
}

/// A four-digit hexadecimal group determines its value.
pub proof fn lemma_hex4_inj(g1: u16, g2: u16)
    requires
        hex4(g1) == hex4(g2),
    ensures
        g1 == g2,
{
    assert(hex4(g1)[0] == hex4(g2)[0]);
    assert(hex4(g1)[1] == hex4(g2)[1]);
    assert(hex4(g1)[2] == hex4(g2)[2]);
    assert(hex4(g1)[3] == hex4(g2)[3]);
    lemma_hex_char_inj((g1 as nat / 4096) % 16, (g2 as nat / 4096) % 16);
    lemma_hex_char_inj((g1 as nat / 256) % 16, (g2 as nat / 256) % 16);
    lemma_hex_char_inj((g1 as nat / 16) % 16, (g2 as nat / 16) % 16);
    lemma_hex_char_inj(g1 as nat % 16, g2 as nat % 16);
    assert(g1 == 4096 * ((g1 / 4096) % 16) + 256 * ((g1 / 256) % 16) + 16 * ((g1 / 16) % 16) + (
    g1 % 16)) by (bit_vector);
    assert(g2 == 4096 * ((g2 / 4096) % 16) + 256 * ((g2 / 256) % 16) + 16 * ((g2 / 16) % 16) + (
    g2 % 16)) by (bit_vector);
}

/// The exact digit-by-digit form of decimal text for numbers under 1000.
pub proof fn lemma_dec_text_shape(n: nat)
    requires
        n < 1000,
    ensures
        n < 10 ==> dec_text(n) == seq![dec_char(n)],
        10 <= n < 100 ==> dec_text(n) == seq![dec_char(n / 10), dec_char(n % 10)],
        100 <= n ==> dec_text(n) == seq![
            dec_char(n / 100),
            dec_char((n / 10) % 10),
            dec_char(n % 10),
        ],
{
    if 10 <= n && n < 100 {
        assert(n / 10 < 10);
        assert(dec_text(n / 10) == seq![dec_char(n / 10)]);
        assert(dec_text(n) == dec_text(n / 10).push(dec_char(n % 10)));
        assert(dec_text(n) =~= seq![dec_char(n / 10), dec_char(n % 10)]);
    } else if 100 <= n {
        lemma_div_denominator(n as int, 10, 10);
        assert(n / 10 / 10 == n / 100);
        assert(10 <= n / 10 < 100);
        assert(n / 10 / 10 < 10);
        assert(dec_text(n / 10 / 10) == seq![dec_char(n / 10 / 10)]);
        assert(dec_text(n / 10) == dec_text(n / 10 / 10).push(dec_char((n / 10) % 10)));
        assert(dec_text(n / 10) =~= seq![dec_char(n / 10 / 10), dec_char((n / 10) % 10)]);
        assert(dec_text(n) == dec_text(n / 10).push(dec_char(n % 10)));
        assert(dec_text(n) =~= seq![dec_char(n / 100), dec_char((n / 10) % 10), dec_char(n % 10)]);
    }
}

} // verus!
