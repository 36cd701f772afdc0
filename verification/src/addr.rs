//! Address codec: the three SOCKS5 address encodings (IPv4, domain name,
//! IPv6) as textual addresses. IPv4 text is dotted decimal without leading
//! zeros; IPv6 text is eight fixed-width four-digit lower-case hexadecimal
//! groups separated by colons; a domain name is one character per byte.
//! The parsers accept exactly the canonical text the formatters produce,
//! which makes formatting and parsing inverse to each other.
//!
//! A deliberate deviation: this codec's canonical IPv6 text is the full
//! fixed-width form (`0000:0000:0000:0000:0000:0000:0000:0001`), one of the
//! standard textual representations and accepted by every IPv6 parser, not
//! the usual compressed rendering that suppresses leading zeros and elides
//! the longest zero run (`::1`). The fixed form keeps every group at a
//! fixed position, which is what lets the parser be a verified exact
//! inverse of the formatter; a compressed-form string is not produced here
//! and is not accepted by `parse_ipv6` (it takes the defined encode-failure
//! path instead).
#![allow(unused_imports)]
use vstd::prelude::*;
use vstd::string::*;
use vstd::arithmetic::div_mod::*;
use crate::digits::{dec_char, dec_text, hex_char, hex4, is_dec_digit, is_hex_digit,
    push_dec_u16, push_hex4, dec_val, hex_val, lemma_dec_text_digits, lemma_dec_text_shape,
    lemma_dec_char_inj, lemma_hex_char_inj, lemma_dec_text_facts, lemma_hex_char_is_hex};

verus! {

/// Dotted-decimal text of the four octets of an IPv4 address.
pub open spec fn ipv4_text(a: u8, b: u8, c: u8, d: u8) -> Seq<char> {
    dec_text(a as nat) + seq!['.'] + dec_text(b as nat) + seq!['.'] + dec_text(c as nat)
        + seq!['.'] + dec_text(d as nat)
}

/// The sixteen bytes of an IPv6 address as eight big-endian 16-bit groups.
pub open spec fn groups_of(bs: Seq<u8>) -> Seq<u16>
    recommends
        bs.len() == 16,
{
    Seq::new(8, |i: int| ((bs[2 * i] as nat) * 256 + (bs[2 * i + 1] as nat)) as u16)
}

/// Fixed-width hexadecimal text of an IPv6 address, from its eight groups:
/// the codec's canonical form (see the module note; the zero-run-compressed
/// rendering is deliberately not produced).
pub open spec fn ipv6_text(gs: Seq<u16>) -> Seq<char>
    recommends
        gs.len() == 8,
{
    hex4(gs[0]) + seq![':'] + hex4(gs[1]) + seq![':'] + hex4(gs[2]) + seq![':'] + hex4(gs[3])
        + seq![':'] + hex4(gs[4]) + seq![':'] + hex4(gs[5]) + seq![':'] + hex4(gs[6]) + seq![':']
        + hex4(gs[7])
}

/// One-character-per-byte text of a domain name.
pub open spec fn domain_text(bs: Seq<u8>) -> Seq<char> {
    bs.map_values(|b: u8| b as char)
}

/// Formats an IPv4 address as dotted decimal.
pub fn format_ipv4(a: u8, b: u8, c: u8, d: u8) -> (r: String)
    ensures
        r@ == ipv4_text(a, b, c, d),
{
    let mut s = String::new();
    push_dec_u16(&mut s, a as u16);
    s.push('.');
    push_dec_u16(&mut s, b as u16);
    s.push('.');
    push_dec_u16(&mut s, c as u16);
    s.push('.');
    push_dec_u16(&mut s, d as u16);
    proof {
        assert(s@ =~= ipv4_text(a, b, c, d));
    }
    s
}

/// Formats sixteen IPv6 address bytes as eight hexadecimal groups.
pub fn format_ipv6(bs: &Vec<u8>) -> (r: String)
    requires
        bs@.len() == 16,
    ensures
        r@ == ipv6_text(groups_of(bs@)),
{
    let mut s = String::new();
    let mut i: usize = 0;
    while i < 8
        invariant
            bs@.len() == 16,
            i <= 8,
            s@ == ipv6_prefix(groups_of(bs@), i as int),
        decreases 8 - i,
    {
        let ghost pre = s@;
        if i > 0 {
            s.push(':');
        }
        let g: u16 = (bs[2 * i] as u16) * 256 + (bs[2 * i + 1] as u16);
        proof {
            assert(g == groups_of(bs@)[i as int]);
        }
        push_hex4(&mut s, g);
        proof {
            let gs = groups_of(bs@);
            if i == 0 {
                assert(pre + hex4(gs[0]) =~= hex4(gs[0]));
            } else {
                assert(pre.push(':') =~= pre + seq![':']);
                assert(s@ == ipv6_prefix(gs, i as int) + seq![':'] + hex4(gs[i as int]));
            }
            assert(s@ == ipv6_prefix(gs, i as int + 1));
        }
        i = i + 1;
    }
    proof {
        lemma_ipv6_prefix_full(groups_of(bs@));
    }
    s
}

/// The first `k` groups of IPv6 text, with their separating colons.
pub open spec fn ipv6_prefix(gs: Seq<u16>, k: int) -> Seq<char>
    recommends
        0 <= k <= 8,
    decreases k,
{
    if k <= 0 {
        Seq::empty()
    } else if k == 1 {
        hex4(gs[0])
    } else {
        ipv6_prefix(gs, k - 1) + seq![':'] + hex4(gs[k - 1])
    }
}

proof fn lemma_ipv6_prefix_full(gs: Seq<u16>)
    requires
        gs.len() == 8,
    ensures
        ipv6_prefix(gs, 8) == ipv6_text(gs),
{
    reveal_with_fuel(ipv6_prefix, 9);
}

/// Whether the decimal text of `v` stands at `[off, end)` of `s` as a whole
/// group: it is followed by the end of the string or by a non-digit.
pub open spec fn dec_group_at(s: Seq<char>, off: int, end: int, v: u8) -> bool {
    &&& 0 <= off < end <= s.len()
    &&& s.subrange(off, end) == dec_text(v as nat)
    &&& (end == s.len() || !is_dec_digit(s[end]))
}

/// Reads one canonical decimal octet of an IPv4 address at `off`: one to
/// three digits, no leading zero, value at most 255, ending before a
/// non-digit or the end of the string. Returns the value and the position
/// one past the last digit; fails on exactly the strings where no octet's
/// canonical text stands at `off`.
#[verifier::rlimit(60)]
pub fn parse_dec_group(s: &str, off: usize, n: usize) -> (r: Option<(u8, usize)>)
    requires
        n as nat == s@.len(),
        off <= n,
    ensures
        r matches Some(p) ==> dec_group_at(s@, off as int, p.1 as int, p.0),
        forall|v: u8, end: int|
            #![trigger dec_group_at(s@, off as int, end, v)]
            dec_group_at(s@, off as int, end, v) ==> r == Some((v, end as usize)),
{
    let ghost sv = s@;
    if off >= n {
        return None;
    }
    let c0 = s.get_char(off);
    let d0 = match dec_val(c0) {
        Some(d) => d,
        None => {
            proof {
                assert forall|v: u8, end: int|
                    dec_group_at(sv, off as int, end, v) implies false by {
                    lemma_dec_text_digits(v as nat);
                    assert(sv.subrange(off as int, end)[0] == sv[off as int]);
                    assert(is_dec_digit(c0));
                }
            }
            return None;
        },
    };
    let e1 = off + 1;
    let second = if e1 < n {
        dec_val(s.get_char(e1))
    } else {
        None
    };
    let d1 = match second {
        Some(d) => d,
        None => {
            proof {
                assert(sv.subrange(off as int, e1 as int) =~= seq![c0]);
                assert(dec_text(d0 as nat) == seq![dec_char(d0 as nat)]);
                assert(dec_group_at(sv, off as int, e1 as int, d0));
                assert forall|v: u8, end: int|
                    dec_group_at(sv, off as int, end, v) implies v == d0 && end == e1 by {
                    lemma_dec_text_digits(v as nat);
                    lemma_dec_text_facts(v as nat);
                    if end > e1 {
                        assert(sv.subrange(off as int, end)[1] == sv[off + 1]);
                        assert(is_dec_digit(sv[e1 as int]));
                        assert(e1 < n);
                        assert(false);
                    }
                    assert(end == e1);
                    assert(dec_text(v as nat).len() == 1);
                    assert(v < 10);
                    assert(sv.subrange(off as int, end)[0] == c0);
                    lemma_dec_text_shape(v as nat);
                    lemma_dec_char_inj(v as nat, d0 as nat);
                }
            }
            return Some((d0, e1));
        },
    };
    if d0 == 0 {
        proof {
            assert forall|v: u8, end: int|
                dec_group_at(sv, off as int, end, v) implies false by {
                lemma_dec_text_facts(v as nat);
                if end == e1 {
                    assert(is_dec_digit(sv[e1 as int]));
                    assert(false);
                }
                assert(end >= off + 2);
                assert(dec_text(v as nat).len() >= 2);
                assert(v >= 10);
                assert(sv.subrange(off as int, end)[0] == sv[off as int]);
                assert(dec_text(v as nat)[0] != dec_char(0));
                assert(c0 == dec_char(0));
            }
        }
        return None;
    }
    let ghost c1 = sv[e1 as int];
    let e2 = off + 2;
    let third = if e2 < n {
        dec_val(s.get_char(e2))
    } else {
        None
    };
    let d2 = match third {
        Some(d) => d,
        None => {
            let v: u8 = 10 * d0 + d1;
            proof {
                lemma_fundamental_div_mod_converse(v as int, 10, d0 as int, d1 as int);
                lemma_dec_text_shape(v as nat);
                assert(c1 == dec_char(d1 as nat));
                assert(dec_text(v as nat) == seq![dec_char(d0 as nat), dec_char(d1 as nat)]);
                assert(sv.subrange(off as int, e2 as int) =~= seq![c0, c1]);
                assert(dec_group_at(sv, off as int, e2 as int, v));
                assert forall|w: u8, end: int|
                    dec_group_at(sv, off as int, end, w) implies w == v && end == e2 by {
                    lemma_dec_text_digits(w as nat);
                    lemma_dec_text_facts(w as nat);
                    if end == e1 {
                        assert(is_dec_digit(sv[e1 as int]));
                        assert(false);
                    }
                    if end > e2 {
                        assert(sv.subrange(off as int, end)[2] == sv[off + 2]);
                        assert(is_dec_digit(sv[e2 as int]));
                        assert(e2 < n);
                        assert(false);
                    }
                    assert(end == e2);
                    assert(dec_text(w as nat).len() == 2);
                    assert(10 <= w < 100);
                    lemma_dec_text_shape(w as nat);
                    assert(sv.subrange(off as int, end)[0] == c0);
                    assert(sv.subrange(off as int, end)[1] == c1);
                    lemma_dec_char_inj((w as nat) / 10, d0 as nat);
                    lemma_dec_char_inj((w as nat) % 10, d1 as nat);
                    lemma_fundamental_div_mod(w as int, 10);
                }
            }
            return Some((v, e2));
        },
    };
    let ghost c2 = sv[e2 as int];
    let e3 = off + 3;
    let fourth = if e3 < n {
        dec_val(s.get_char(e3))
    } else {
        None
    };
    if fourth.is_some() {
        proof {
            assert forall|v: u8, end: int|
                dec_group_at(sv, off as int, end, v) implies false by {
                lemma_dec_text_facts(v as nat);
                if end == e1 || end == e2 || end == e3 {
                    assert(is_dec_digit(sv[end]));
                    assert(false);
                }
                assert(end >= off + 4);
                assert(dec_text(v as nat).len() >= 4);
                assert(false);
            }
        }
        return None;
    }
    let v16: u16 = 100 * (d0 as u16) + 10 * (d1 as u16) + (d2 as u16);
    proof {
        lemma_fundamental_div_mod_converse(v16 as int, 100, d0 as int, (10 * d1 + d2) as int);
        lemma_fundamental_div_mod_converse(v16 as int, 10, (10 * d0 + d1) as int, d2 as int);
        lemma_fundamental_div_mod_converse((10 * d0 + d1) as int, 10, d0 as int, d1 as int);
        assert(v16 as int / 100 == d0);
        assert((v16 as int / 10) % 10 == d1);
        assert(v16 as int % 10 == d2);
    }
    if v16 > 255 {
        proof {
            assert forall|v: u8, end: int|
                dec_group_at(sv, off as int, end, v) implies false by {
                lemma_dec_text_facts(v as nat);
                if end == e1 || end == e2 {
                    assert(is_dec_digit(sv[end]));
                    assert(false);
                }
                if end > e3 {
                    assert(sv.subrange(off as int, end)[3] == sv[off + 3]);
                    assert(is_dec_digit(sv[e3 as int]));
                    assert(e3 < n);
                    assert(false);
                }
                assert(end == e3);
                assert(dec_text(v as nat).len() == 3);
                assert(100 <= v);
                lemma_dec_text_shape(v as nat);
                assert(sv.subrange(off as int, end)[0] == c0);
                assert(sv.subrange(off as int, end)[1] == c1);
                assert(sv.subrange(off as int, end)[2] == c2);
                lemma_dec_char_inj((v as nat) / 100, d0 as nat);
                lemma_dec_char_inj(((v as nat) / 10) % 10, d1 as nat);
                lemma_dec_char_inj((v as nat) % 10, d2 as nat);
                lemma_fundamental_div_mod(v as int, 100);
                lemma_fundamental_div_mod(v as int, 10);
                lemma_fundamental_div_mod(v as int / 10, 10);
                lemma_div_denominator(v as int, 10, 10);
                assert(v as int == 100 * d0 + 10 * d1 + d2);
                assert(false);
            }
        }
        return None;
    }
    let v = v16 as u8;
    proof {
        lemma_dec_text_shape(v as nat);
        assert(dec_text(v as nat) == seq![
            dec_char(d0 as nat),
            dec_char(d1 as nat),
            dec_char(d2 as nat),
        ]);
        assert(c2 == dec_char(d2 as nat));
        assert(sv.subrange(off as int, e3 as int) =~= seq![c0, c1, c2]);
        assert(dec_group_at(sv, off as int, e3 as int, v));
        assert forall|w: u8, end: int|
            dec_group_at(sv, off as int, end, w) implies w == v && end == e3 by {
            lemma_dec_text_facts(w as nat);
            if end == e1 || end == e2 {
                assert(is_dec_digit(sv[end]));
                assert(false);
            }
            if end > e3 {
                assert(sv.subrange(off as int, end)[3] == sv[off + 3]);
                assert(is_dec_digit(sv[e3 as int]));
                assert(e3 < n);
                assert(false);
            }
            assert(end == e3);
            assert(dec_text(w as nat).len() == 3);
            assert(100 <= w);
            lemma_dec_text_shape(w as nat);
            assert(sv.subrange(off as int, end)[0] == c0);
            assert(sv.subrange(off as int, end)[1] == c1);
            assert(sv.subrange(off as int, end)[2] == c2);
            lemma_dec_char_inj((w as nat) / 100, d0 as nat);
            lemma_dec_char_inj(((w as nat) / 10) % 10, d1 as nat);
            lemma_dec_char_inj((w as nat) % 10, d2 as nat);
            lemma_fundamental_div_mod(w as int, 100);
            lemma_fundamental_div_mod(w as int, 10);
            lemma_fundamental_div_mod(w as int / 10, 10);
            lemma_div_denominator(w as int, 10, 10);
        }
    }
    Some((v, e3))
}

/// How dotted-decimal text decomposes: each octet's text stands as a whole
/// decimal group, with a dot after each of the first three.
proof fn lemma_ipv4_text_structure(s: Seq<char>, a: u8, b: u8, c: u8, d: u8)
    requires
        s == ipv4_text(a, b, c, d),
    ensures
        ipv4_structured(s, a, b, c, d),
{
    let la = dec_text(a as nat).len() as int;
    let lb = dec_text(b as nat).len() as int;
    let lc = dec_text(c as nat).len() as int;
    let ld = dec_text(d as nat).len() as int;
    lemma_dec_text_digits(a as nat);
    lemma_dec_text_digits(b as nat);
    lemma_dec_text_digits(c as nat);
    lemma_dec_text_digits(d as nat);
    assert(!is_dec_digit('.'));
    assert(s.subrange(0, la) =~= dec_text(a as nat));
    assert(s[la] == '.');
    assert(s.subrange(la + 1, la + 1 + lb) =~= dec_text(b as nat));
    assert(s[la + 1 + lb] == '.');
    assert(s.subrange(la + lb + 2, la + lb + 2 + lc) =~= dec_text(c as nat));
    assert(s[la + lb + 2 + lc] == '.');
    assert(s.subrange(la + lb + lc + 3, s.len() as int) =~= dec_text(d as nat));
}

/// Reads a dotted-decimal IPv4 address. Returns its four octets exactly when
/// the string is the canonical dotted-decimal text of some address.
#[verifier::rlimit(100)]
pub fn parse_ipv4(s: &str) -> (r: Option<(u8, u8, u8, u8)>)
    ensures
        r matches Some(q) ==> s@ == ipv4_text(q.0, q.1, q.2, q.3),
        forall|a: u8, b: u8, c: u8, d: u8|
            s@ == #[trigger] ipv4_text(a, b, c, d) ==> r == Some((a, b, c, d)),
{
    let ghost sv = s@;
    let n = s.unicode_len();
    proof {
        assert forall|a: u8, b: u8, c: u8, d: u8| sv == #[trigger] ipv4_text(a, b, c, d)
            implies ipv4_structured(sv, a, b, c, d) by {
            lemma_ipv4_text_structure(sv, a, b, c, d);
        }
    }
    let r0 = parse_dec_group(s, 0, n);
    let (v0, e0) = match r0 {
        Some(p) => p,
        None => {
            return None;
        },
    };
    if e0 == n {
        return None;
    }
    if s.get_char(e0) != '.' {
        return None;
    }
    let r1 = parse_dec_group(s, e0 + 1, n);
    let (v1, e1) = match r1 {
        Some(p) => p,
        None => {
            return None;
        },
    };
    if e1 == n {
        return None;
    }
    if s.get_char(e1) != '.' {
        return None;
    }
    let r2 = parse_dec_group(s, e1 + 1, n);
    let (v2, e2) = match r2 {
        Some(p) => p,
        None => {
            return None;
        },
    };
    if e2 == n {
        return None;
    }
    if s.get_char(e2) != '.' {
        return None;
    }
    let r3 = parse_dec_group(s, e2 + 1, n);
    let (v3, e3) = match r3 {
        Some(p) => p,
        None => {
            return None;
        },
    };
    if e3 != n {
        return None;
    }
    proof {
        assert(sv =~= ipv4_text(v0, v1, v2, v3));
    }
    Some((v0, v1, v2, v3))
}

/// The decomposition of `s` into the four groups and dots of `ipv4_text`.
spec fn ipv4_structured(s: Seq<char>, a: u8, b: u8, c: u8, d: u8) -> bool {
    let la = dec_text(a as nat).len() as int;
    let lb = dec_text(b as nat).len() as int;
    let lc = dec_text(c as nat).len() as int;
    let ld = dec_text(d as nat).len() as int;
    &&& s.len() == la + lb + lc + ld + 3
    &&& dec_group_at(s, 0, la, a)
    &&& s[la] == '.'
    &&& dec_group_at(s, la + 1, la + 1 + lb, b)
    &&& s[la + 1 + lb] == '.'
    &&& dec_group_at(s, la + lb + 2, la + lb + 2 + lc, c)
    &&& s[la + lb + 2 + lc] == '.'
    &&& dec_group_at(s, la + lb + lc + 3, s.len() as int, d)
}

/// Reads one fixed-width four-digit hexadecimal group at `off`. Returns the
/// group value exactly when the four characters are its canonical text.
#[verifier::rlimit(60)]
pub fn parse_hex4(s: &str, off: usize, n: usize) -> (r: Option<u16>)
    requires
        n as nat == s@.len(),
        off + 4 <= n,
    ensures
        r matches Some(g) ==> s@.subrange(off as int, off as int + 4) == hex4(g),
        forall|g: u16| s@.subrange(off as int, off as int + 4) == #[trigger] hex4(g) ==> r
            == Some(g),
{
    let ghost sv = s@;
    let c0 = s.get_char(off);
    let c1 = s.get_char(off + 1);
    let c2 = s.get_char(off + 2);
    let c3 = s.get_char(off + 3);
    proof {
        assert forall|g: u16| sv.subrange(off as int, off as int + 4) == #[trigger] hex4(g)
            implies {
            &&& c0 == hex_char((g as nat / 4096) % 16)
            &&& c1 == hex_char((g as nat / 256) % 16)
            &&& c2 == hex_char((g as nat / 16) % 16)
            &&& c3 == hex_char(g as nat % 16)
        } by {
            assert(sv.subrange(off as int, off as int + 4)[0] == c0);
            assert(sv.subrange(off as int, off as int + 4)[1] == c1);
            assert(sv.subrange(off as int, off as int + 4)[2] == c2);
            assert(sv.subrange(off as int, off as int + 4)[3] == c3);
        }
        assert forall|k: nat| k < 16 implies is_hex_digit(#[trigger] hex_char(k)) by {
            lemma_hex_char_is_hex(k);
        }
    }
    let h0 = match hex_val(c0) {
        Some(h) => h,
        None => {
            return None;
        },
    };
    let h1 = match hex_val(c1) {
        Some(h) => h,
        None => {
            return None;
        },
    };
    let h2 = match hex_val(c2) {
        Some(h) => h,
        None => {
            return None;
        },
    };
    let h3 = match hex_val(c3) {
        Some(h) => h,
        None => {
            return None;
        },
    };
    let g: u16 = 4096 * (h0 as u16) + 256 * (h1 as u16) + 16 * (h2 as u16) + (h3 as u16);
    proof {
        lemma_fundamental_div_mod_converse(
            g as int,
            4096,
            h0 as int,
            256 * (h1 as int) + 16 * (h2 as int) + h3 as int,
        );
        lemma_fundamental_div_mod_converse(
            g as int,
            256,
            16 * (h0 as int) + h1 as int,
            16 * (h2 as int) + h3 as int,
        );
        lemma_fundamental_div_mod_converse(
            g as int,
            16,
            256 * (h0 as int) + 16 * (h1 as int) + h2 as int,
            h3 as int,
        );
        lemma_fundamental_div_mod_converse(
            16 * (h0 as int) + h1 as int,
            16,
            h0 as int,
            h1 as int,
        );
        lemma_fundamental_div_mod_converse(
            256 * (h0 as int) + 16 * (h1 as int) + h2 as int,
            16,
            16 * (h0 as int) + h1 as int,
            h2 as int,
        );
        assert((g as nat / 4096) % 16 == h0 as nat);
        assert((g as nat / 256) % 16 == h1 as nat);
        assert((g as nat / 16) % 16 == h2 as nat);
        assert(g as nat % 16 == h3 as nat);
        assert(sv.subrange(off as int, off as int + 4) =~= seq![c0, c1, c2, c3]);
        assert(hex4(g) == seq![
            hex_char(h0 as nat),
            hex_char(h1 as nat),
            hex_char(h2 as nat),
            hex_char(h3 as nat),
        ]);
        assert(sv.subrange(off as int, off as int + 4) == hex4(g));
        assert forall|g2: u16| sv.subrange(off as int, off as int + 4) == #[trigger] hex4(g2)
            implies g2 == g by {
            assert(g2 == 4096 * ((g2 / 4096) % 16) + 256 * ((g2 / 256) % 16) + 16 * ((g2 / 16)
                % 16) + (g2 % 16)) by (bit_vector);
            lemma_hex_char_inj((g2 as nat / 4096) % 16, h0 as nat);
            lemma_hex_char_inj((g2 as nat / 256) % 16, h1 as nat);
            lemma_hex_char_inj((g2 as nat / 16) % 16, h2 as nat);
            lemma_hex_char_inj(g2 as nat % 16, h3 as nat);
        }
    }
    Some(g)
}

/// The decomposition of `s` into the eight groups and seven colons of
/// `ipv6_text`.
spec fn ipv6_structured(s: Seq<char>, gs: Seq<u16>) -> bool {
    &&& s.len() == 39
    &&& s.subrange(0, 4) == hex4(gs[0])
    &&& s[4] == ':'
    &&& s.subrange(5, 9) == hex4(gs[1])
    &&& s[9] == ':'
    &&& s.subrange(10, 14) == hex4(gs[2])
    &&& s[14] == ':'
    &&& s.subrange(15, 19) == hex4(gs[3])
    &&& s[19] == ':'
    &&& s.subrange(20, 24) == hex4(gs[4])
    &&& s[24] == ':'
    &&& s.subrange(25, 29) == hex4(gs[5])
    &&& s[29] == ':'
    &&& s.subrange(30, 34) == hex4(gs[6])
    &&& s[34] == ':'
    &&& s.subrange(35, 39) == hex4(gs[7])
}

/// How fixed-width IPv6 text decomposes: eight four-character groups with a
/// colon after each of the first seven.
#[verifier::rlimit(100)]
proof fn lemma_ipv6_text_structure(s: Seq<char>, gs: Seq<u16>)
    requires
        gs.len() == 8,
        s == ipv6_text(gs),
    ensures
        ipv6_structured(s, gs),
{
    assert(s.subrange(0, 4) =~= hex4(gs[0]));
    assert(s.subrange(5, 9) =~= hex4(gs[1]));
    assert(s.subrange(10, 14) =~= hex4(gs[2]));
    assert(s.subrange(15, 19) =~= hex4(gs[3]));
    assert(s.subrange(20, 24) =~= hex4(gs[4]));
    assert(s.subrange(25, 29) =~= hex4(gs[5]));
    assert(s.subrange(30, 34) =~= hex4(gs[6]));
    assert(s.subrange(35, 39) =~= hex4(gs[7]));
}

/// Reads a fixed-width hexadecimal IPv6 address. Returns its sixteen bytes
/// exactly when the string is the canonical text of some address.
#[verifier::rlimit(100)]
pub fn parse_ipv6(s: &str) -> (r: Option<Vec<u8>>)
    ensures
        r matches Some(v) ==> v@.len() == 16 && s@ == ipv6_text(groups_of(v@)),
        forall|bs: Seq<u8>|
            bs.len() == 16 && s@ == #[trigger] ipv6_text(groups_of(bs)) ==> (r matches Some(v)
                && v@ == bs),
{
    let ghost sv = s@;
    let n = s.unicode_len();
    proof {
        assert forall|bs: Seq<u8>| bs.len() == 16 && sv == #[trigger] ipv6_text(groups_of(bs))
            implies ipv6_structured(sv, groups_of(bs)) by {
            lemma_ipv6_text_structure(sv, groups_of(bs));
        }
    }
    if n != 39 {
        return None;
    }
    let g0 = match parse_hex4(s, 0, n) {
        Some(g) => g,
        None => {
            return None;
        },
    };
    if s.get_char(4) != ':' {
        return None;
    }
    let g1 = match parse_hex4(s, 5, n) {
        Some(g) => g,
        None => {
            return None;
        },
    };
    if s.get_char(9) != ':' {
        return None;
    }
    let g2 = match parse_hex4(s, 10, n) {
        Some(g) => g,
        None => {
            return None;
        },
    };
    if s.get_char(14) != ':' {
        return None;
    }
    let g3 = match parse_hex4(s, 15, n) {
        Some(g) => g,
        None => {
            return None;
        },
    };
    if s.get_char(19) != ':' {
        return None;
    }
    let g4 = match parse_hex4(s, 20, n) {
        Some(g) => g,
        None => {
            return None;
        },
    };
    if s.get_char(24) != ':' {
        return None;
    }
    let g5 = match parse_hex4(s, 25, n) {
        Some(g) => g,
        None => {
            return None;
        },
    };
    if s.get_char(29) != ':' {
        return None;
    }
    let g6 = match parse_hex4(s, 30, n) {
        Some(g) => g,
        None => {
            return None;
        },
    };
    if s.get_char(34) != ':' {
        return None;
    }
    let g7 = match parse_hex4(s, 35, n) {
        Some(g) => g,
        None => {
            return None;
        },
    };
    let mut v: Vec<u8> = Vec::new();
    v.push((g0 / 256) as u8);
    v.push((g0 % 256) as u8);
    v.push((g1 / 256) as u8);
    v.push((g1 % 256) as u8);
    v.push((g2 / 256) as u8);
    v.push((g2 % 256) as u8);
    v.push((g3 / 256) as u8);
    v.push((g3 % 256) as u8);
    v.push((g4 / 256) as u8);
    v.push((g4 % 256) as u8);
    v.push((g5 / 256) as u8);
    v.push((g5 % 256) as u8);
    v.push((g6 / 256) as u8);
    v.push((g6 % 256) as u8);
    v.push((g7 / 256) as u8);
    v.push((g7 % 256) as u8);
    proof {
        lemma_fundamental_div_mod(g0 as int, 256);
        lemma_fundamental_div_mod(g1 as int, 256);
        lemma_fundamental_div_mod(g2 as int, 256);
        lemma_fundamental_div_mod(g3 as int, 256);
        lemma_fundamental_div_mod(g4 as int, 256);
        lemma_fundamental_div_mod(g5 as int, 256);
        lemma_fundamental_div_mod(g6 as int, 256);
        lemma_fundamental_div_mod(g7 as int, 256);
        assert(groups_of(v@) =~= seq![g0, g1, g2, g3, g4, g5, g6, g7]);
        lemma_ipv6_prefix_full(groups_of(v@));
        reveal_with_fuel(ipv6_prefix, 9);
        assert(sv =~= ipv6_text(groups_of(v@)));
        assert forall|bs: Seq<u8>| bs.len() == 16 && sv == #[trigger] ipv6_text(groups_of(bs))
            implies v@ == bs by {
            let gs = groups_of(bs);
            assert(gs[0] == g0 && gs[1] == g1 && gs[2] == g2 && gs[3] == g3 && gs[4] == g4
                && gs[5] == g5 && gs[6] == g6 && gs[7] == g7);
            lemma_fundamental_div_mod_converse(gs[0] as int, 256, bs[0] as int, bs[1] as int);
            lemma_fundamental_div_mod_converse(gs[1] as int, 256, bs[2] as int, bs[3] as int);
            lemma_fundamental_div_mod_converse(gs[2] as int, 256, bs[4] as int, bs[5] as int);
            lemma_fundamental_div_mod_converse(gs[3] as int, 256, bs[6] as int, bs[7] as int);
            lemma_fundamental_div_mod_converse(gs[4] as int, 256, bs[8] as int, bs[9] as int);
            lemma_fundamental_div_mod_converse(gs[5] as int, 256, bs[10] as int, bs[11] as int);
            lemma_fundamental_div_mod_converse(gs[6] as int, 256, bs[12] as int, bs[13] as int);
            lemma_fundamental_div_mod_converse(gs[7] as int, 256, bs[14] as int, bs[15] as int);
            assert(v@ =~= bs);
        }
    }
    Some(v)
}

/// At one position of a string there is at most one whole decimal group.
proof fn lemma_dec_group_unique(s: Seq<char>, off: int, end1: int, v1: u8, end2: int, v2: u8)
    requires
        dec_group_at(s, off, end1, v1),
        dec_group_at(s, off, end2, v2),
    ensures
        end1 == end2,
        v1 == v2,
{
    if end1 < end2 {
        lemma_dec_text_digits(v2 as nat);
        assert(s.subrange(off, end2)[end1 - off] == s[end1]);
        assert(is_dec_digit(s[end1]));
        assert(false);
    }
    if end2 < end1 {
        lemma_dec_text_digits(v1 as nat);
        assert(s.subrange(off, end1)[end2 - off] == s[end2]);
        assert(is_dec_digit(s[end2]));
        assert(false);
    }
    crate::digits::lemma_dec_text_inj(v1 as nat, v2 as nat);
}

/// Law (address round trip, IPv4): dotted-decimal text determines the four
/// octets. Together with the contracts of `format_ipv4` and `parse_ipv4`
/// this makes encoding and decoding inverse to each other: parsing the
/// formatted text of an address gives back exactly that address, and
/// formatting what a string parsed to gives back exactly that string.
pub proof fn lemma_ipv4_text_injective(a: u8, b: u8, c: u8, d: u8, a2: u8, b2: u8, c2: u8, d2: u8)
    requires
        ipv4_text(a, b, c, d) == ipv4_text(a2, b2, c2, d2),
    ensures
        a == a2 && b == b2 && c == c2 && d == d2,
{
    let s = ipv4_text(a, b, c, d);
    lemma_ipv4_text_structure(s, a, b, c, d);
    lemma_ipv4_text_structure(s, a2, b2, c2, d2);
    let la = dec_text(a as nat).len() as int;
    let lb = dec_text(b as nat).len() as int;
    let lc = dec_text(c as nat).len() as int;
    let la2 = dec_text(a2 as nat).len() as int;
    let lb2 = dec_text(b2 as nat).len() as int;
    let lc2 = dec_text(c2 as nat).len() as int;
    lemma_dec_group_unique(s, 0, la, a, la2, a2);
    lemma_dec_group_unique(s, la + 1, la + 1 + lb, b, la + 1 + lb2, b2);
    lemma_dec_group_unique(s, la + lb + 2, la + lb + 2 + lc, c, la + lb + 2 + lc2, c2);
    lemma_dec_group_unique(s, la + lb + lc + 3, s.len() as int, d, s.len() as int, d2);
}

/// Law (address round trip, IPv6): fixed-width hexadecimal text determines
/// the sixteen bytes. Together with the contracts of `format_ipv6` and
/// `parse_ipv6` this makes encoding and decoding inverse to each other.
pub proof fn lemma_ipv6_text_injective(x: Seq<u8>, y: Seq<u8>)
    requires
        x.len() == 16,
        y.len() == 16,
        ipv6_text(groups_of(x)) == ipv6_text(groups_of(y)),
    ensures
        x == y,
{
    let s = ipv6_text(groups_of(x));
    let gx = groups_of(x);
    let gy = groups_of(y);
    lemma_ipv6_text_structure(s, gx);
    lemma_ipv6_text_structure(s, gy);
    crate::digits::lemma_hex4_inj(gx[0], gy[0]);
    crate::digits::lemma_hex4_inj(gx[1], gy[1]);
    crate::digits::lemma_hex4_inj(gx[2], gy[2]);
    crate::digits::lemma_hex4_inj(gx[3], gy[3]);
    crate::digits::lemma_hex4_inj(gx[4], gy[4]);
    crate::digits::lemma_hex4_inj(gx[5], gy[5]);
    crate::digits::lemma_hex4_inj(gx[6], gy[6]);
    crate::digits::lemma_hex4_inj(gx[7], gy[7]);
    assert forall|j: int| 0 <= j < 16 implies x[j] == y[j] by {
        let i = j / 2;
        lemma_fundamental_div_mod(j, 2);
        assert(0 <= i < 8);
        assert(gx[i] == gy[i]) by {
            if i == 0 {
            } else if i == 1 {
            } else if i == 2 {
            } else if i == 3 {
            } else if i == 4 {
            } else if i == 5 {
            } else if i == 6 {
            } else {
                assert(i == 7);
            }
        }
        lemma_fundamental_div_mod_converse(
            gx[i] as int,
            256,
            x[2 * i] as int,
            x[2 * i + 1] as int,
        );
        lemma_fundamental_div_mod_converse(
            gy[i] as int,
            256,
            y[2 * i] as int,
            y[2 * i + 1] as int,
        );
        if j % 2 == 0 {
            assert(j == 2 * i);
        } else {
            assert(j == 2 * i + 1);
        }
    }
    assert(x =~= y);
}

/// Law (address round trip, domain): one-character-per-byte text determines
/// the bytes. Together with `format_domain`'s contract this makes the domain
/// encoding loss-free.
pub proof fn lemma_domain_text_injective(x: Seq<u8>, y: Seq<u8>)
    requires
        domain_text(x) == domain_text(y),
    ensures
        x == y,
{
    assert(domain_text(x).len() == x.len());
    assert(domain_text(y).len() == y.len());
    assert forall|j: int| 0 <= j < x.len() implies x[j] == y[j] by {
        assert(domain_text(x)[j] == x[j] as char);
        assert(domain_text(y)[j] == y[j] as char);
        assert(x[j] as char as int == x[j] as int);
        assert(y[j] as char as int == y[j] as int);
    }
    assert(x =~= y);
}

/// Formats a domain name, one character per byte.
pub fn format_domain(bs: &Vec<u8>) -> (r: String)
    ensures
        r@ == domain_text(bs@),
{
    let mut s = String::new();
    let mut i: usize = 0;
    while i < bs.len()
        invariant
            i <= bs@.len(),
            s@ == domain_text(bs@.subrange(0, i as int)),
        decreases bs@.len() - i,
    {
        s.push(bs[i] as char);
        proof {
            assert(s@ =~= domain_text(bs@.subrange(0, i as int + 1)));
        }
        i = i + 1;
    }
    proof {
        assert(bs@.subrange(0, bs@.len() as int) =~= bs@);
    }
    s
}

} // verus!
