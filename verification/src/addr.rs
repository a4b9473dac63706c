//! The textual model of IPv4 addresses.
//!
//! An address is the 32-bit value of its four octets; its canonical text is
//! the dotted quad `a.b.c.d` with each octet in decimal and no leading zeros.
//! A string is a well-formed address text exactly when it is the canonical
//! text of some value, which is also precisely what the range boundaries of a
//! sweep must look like: anything else is an `AddressParseError`.

use vstd::prelude::*;
use vstd::arithmetic::div_mod::{lemma_fundamental_div_mod, lemma_mod_breakdown};
use vstd::string::*;

use crate::errors::SweepError;

verus! {

/// An IPv4 address, held as the 32-bit value of its four octets.
#[derive(Clone, Copy, Debug, PartialEq, Eq, Structural)]
pub struct Ipv4Address {
    pub value: u32,
}

/// Whether `c` is a decimal digit.
pub open spec fn is_digit(c: char) -> bool {
    48 <= c as u32 <= 57
}

/// The numeric value of a digit character.
pub open spec fn digit_val(c: char) -> int {
    c as u32 - 48
}

/// The character of one decimal digit.
pub open spec fn digit_char(d: int) -> char {
    if d == 0 {
        '0'
    } else if d == 1 {
        '1'
    } else if d == 2 {
        '2'
    } else if d == 3 {
        '3'
    } else if d == 4 {
        '4'
    } else if d == 5 {
        '5'
    } else if d == 6 {
        '6'
    } else if d == 7 {
        '7'
    } else if d == 8 {
        '8'
    } else {
        '9'
    }
}

/// The decimal text of `n`, without leading zeros.
pub open spec fn dec_text(n: int) -> Seq<char>
    recommends
        n >= 0,
    decreases n,
{
    if n < 10 {
        seq![digit_char(n)]
    } else {
        dec_text(n / 10).push(digit_char(n % 10))
    }
}

/// The highest octet of an address value.
pub open spec fn octet0(v: u32) -> int {
    v as int / 0x100_0000
}

/// The second octet of an address value.
pub open spec fn octet1(v: u32) -> int {
    (v as int / 0x1_0000) % 256
}

/// The third octet of an address value.
pub open spec fn octet2(v: u32) -> int {
    (v as int / 256) % 256
}

/// The lowest octet of an address value.
pub open spec fn octet3(v: u32) -> int {
    v as int % 256
}

/// The canonical dotted-quad text of an address value.
pub open spec fn ipv4_text(v: u32) -> Seq<char> {
    dec_text(octet0(v)) + seq!['.'] + dec_text(octet1(v)) + seq!['.'] + dec_text(octet2(v))
        + seq!['.'] + dec_text(octet3(v))
}

/// A string is a well-formed address text exactly when it is the canonical
/// text of some address value.
pub open spec fn is_ipv4_text(s: Seq<char>) -> bool {
    exists|v: u32| s == ipv4_text(v)
}

/// The value whose canonical text a well-formed address string is.
pub open spec fn ipv4_value_of(s: Seq<char>) -> u32
    recommends
        is_ipv4_text(s),
{
    choose|v: u32| s == ipv4_text(v)
}

proof fn lemma_octet_bounds(v: u32)
    ensures
        0 <= octet0(v) < 256,
        0 <= octet1(v) < 256,
        0 <= octet2(v) < 256,
        0 <= octet3(v) < 256,
{
    assert(0 <= v as int / 0x100_0000 < 256) by (nonlinear_arith)
        requires 0 <= v as int <= 0xFFFF_FFFF;
    assert(0 <= (v as int / 0x1_0000) % 256 < 256) by (nonlinear_arith)
        requires 0 <= v as int;
    assert(0 <= (v as int / 256) % 256 < 256) by (nonlinear_arith)
        requires 0 <= v as int;
    assert(0 <= v as int % 256 < 256) by (nonlinear_arith)
        requires 0 <= v as int;
}

/// The four octets reassemble to the address value.
proof fn lemma_octet_reassembly(v: u32)
    ensures
        octet0(v) * 0x100_0000 + octet1(v) * 0x1_0000 + octet2(v) * 256 + octet3(v) == v as int,
{
    let x = v as int;
    lemma_fundamental_div_mod(x, 0x100_0000);
    assert(0x100_0000 == 0x1_0000 * 0x100);
    lemma_mod_breakdown(x, 0x1_0000, 0x100);
    assert(0x1_0000 == 256 * 256);
    lemma_mod_breakdown(x, 256, 256);
}

/// The single-character text of one decimal digit.
fn digit_str(d: u8) -> (r: &'static str)
    requires
        d < 10,
    ensures
        r@ == seq![digit_char(d as int)],
{
    proof {
        reveal_strlit("0");
        reveal_strlit("1");
        reveal_strlit("2");
        reveal_strlit("3");
        reveal_strlit("4");
        reveal_strlit("5");
        reveal_strlit("6");
        reveal_strlit("7");
        reveal_strlit("8");
        reveal_strlit("9");
    }
    let r = match d {
        0 => "0",
        1 => "1",
        2 => "2",
        3 => "3",
        4 => "4",
        5 => "5",
        6 => "6",
        7 => "7",
        8 => "8",
        _ => "9",
    };
    proof {
        assert(r@ =~= seq![digit_char(d as int)]);
    }
    r
}

/// Appends the decimal text of one octet.
fn push_dec(out: &mut String, n: u8)
    ensures
        final(out)@ == old(out)@ + dec_text(n as int),
{
    let ghost m: int = n as int;
    if n >= 100 {
        proof {
            assert(m / 10 / 10 == m / 100) by (nonlinear_arith)
                requires 100 <= m <= 255;
            assert(m / 100 < 10 && m / 10 >= 10) by (nonlinear_arith)
                requires 100 <= m <= 255;
            assert(m / 10 % 10 == (m / 10) % 10);
        }
        out.append(digit_str(n / 100));
        out.append(digit_str((n / 10) % 10));
        out.append(digit_str(n % 10));
        proof {
            assert(dec_text(m) == dec_text(m / 10).push(digit_char(m % 10)));
            assert(dec_text(m / 10) == dec_text(m / 10 / 10).push(digit_char(m / 10 % 10)));
            assert(dec_text(m / 100) =~= seq![digit_char(m / 100)]);
            assert(out@ =~= old(out)@ + dec_text(m));
        }
    } else if n >= 10 {
        proof {
            assert(m / 10 < 10) by (nonlinear_arith)
                requires 10 <= m <= 99;
        }
        out.append(digit_str(n / 10));
        out.append(digit_str(n % 10));
        proof {
            assert(dec_text(m) == dec_text(m / 10).push(digit_char(m % 10)));
            assert(dec_text(m / 10) =~= seq![digit_char(m / 10)]);
            assert(out@ =~= old(out)@ + dec_text(m));
        }
    } else {
        out.append(digit_str(n));
        proof {
            assert(dec_text(m) =~= seq![digit_char(m)]);
            assert(out@ =~= old(out)@ + dec_text(m));
        }
    }
}

/// The canonical dotted-quad text of an address.
pub fn format_ipv4(ip: Ipv4Address) -> (r: String)
    ensures
        r@ == ipv4_text(ip.value),
{
    let v = ip.value;
    proof {
        lemma_octet_bounds(v);
    }
    let o0 = (v / 0x100_0000) as u8;
    let o1 = ((v / 0x1_0000) % 256) as u8;
    let o2 = ((v / 256) % 256) as u8;
    let o3 = (v % 256) as u8;
    let mut r = String::new();
    push_dec(&mut r, o0);
    r.append(".");
    push_dec(&mut r, o1);
    r.append(".");
    push_dec(&mut r, o2);
    r.append(".");
    push_dec(&mut r, o3);
    proof {
        reveal_strlit(".");
        assert("."@ =~= seq!['.']);
        assert(r@ =~= ipv4_text(v));
    }
    r
}

/// One step of the address scan: a digit extends the current octet (clamped
/// at 256, so an overflowing octet stays marked invalid), a dot closes the
/// octet, and any other character closes an invalid octet.
pub open spec fn scan_step(st: (Seq<int>, int), c: char) -> (Seq<int>, int) {
    if is_digit(c) {
        (st.0, if st.1 * 10 + digit_val(c) > 255 {
            256int
        } else {
            st.1 * 10 + digit_val(c)
        })
    } else if c == '.' {
        (st.0.push(st.1), 0)
    } else {
        (st.0.push(256), 0)
    }
}

/// The address scan over a whole string: the closed octets and the value of
/// the still-open last octet.
pub open spec fn scan(s: Seq<char>) -> (Seq<int>, int)
    decreases s.len(),
{
    if s.len() == 0 {
        (Seq::empty(), 0)
    } else {
        scan_step(scan(s.drop_last()), s.last())
    }
}

proof fn lemma_digit_char_val(d: int)
    requires
        0 <= d < 10,
    ensures
        is_digit(digit_char(d)),
        digit_val(digit_char(d)) == d,
        digit_char(d) != '.',
{
}

proof fn lemma_scan_push(s: Seq<char>, c: char)
    ensures
        scan(s.push(c)) == scan_step(scan(s), c),
{
    assert(s.push(c).drop_last() =~= s);
    assert(s.push(c).last() == c);
}

/// Scanning a decimal octet text from a freshly opened octet yields the
/// octet's value.
proof fn lemma_scan_dec(x: Seq<char>, n: int)
    requires
        0 <= n <= 255,
        scan(x).1 == 0,
    ensures
        scan(x + dec_text(n)) == (scan(x).0, n),
    decreases n,
{
    if n < 10 {
        assert(x + dec_text(n) =~= x.push(digit_char(n)));
        lemma_scan_push(x, digit_char(n));
        lemma_digit_char_val(n);
    } else {
        lemma_scan_dec(x, n / 10);
        assert(x + dec_text(n) =~= (x + dec_text(n / 10)).push(digit_char(n % 10)));
        lemma_scan_push(x + dec_text(n / 10), digit_char(n % 10));
        lemma_digit_char_val(n % 10);
        lemma_fundamental_div_mod(n, 10);
    }
}

proof fn lemma_scan_dot(x: Seq<char>)
    ensures
        scan(x + seq!['.']) == (scan(x).0.push(scan(x).1), 0int),
{
    assert(x + seq!['.'] =~= x.push('.'));
    lemma_scan_push(x, '.');
}

/// Scanning the canonical text of an address recovers its four octets.
proof fn lemma_scan_canonical(v: u32)
    ensures
        scan(ipv4_text(v)).0 =~= seq![octet0(v), octet1(v), octet2(v)],
        scan(ipv4_text(v)).1 == octet3(v),
{
    lemma_octet_bounds(v);
    let d = seq!['.'];
    let x0 = dec_text(octet0(v));
    let x1 = x0 + d + dec_text(octet1(v));
    let x2 = x1 + d + dec_text(octet2(v));
    let x3 = x2 + d + dec_text(octet3(v));
    assert(Seq::<char>::empty() + dec_text(octet0(v)) =~= x0);
    lemma_scan_dec(Seq::<char>::empty(), octet0(v));
    lemma_scan_dot(x0);
    assert((x0 + d) + dec_text(octet1(v)) =~= x1);
    lemma_scan_dec(x0 + d, octet1(v));
    lemma_scan_dot(x1);
    assert((x1 + d) + dec_text(octet2(v)) =~= x2);
    lemma_scan_dec(x1 + d, octet2(v));
    lemma_scan_dot(x2);
    assert((x2 + d) + dec_text(octet3(v)) =~= x3);
    lemma_scan_dec(x2 + d, octet3(v));
    assert(x3 =~= ipv4_text(v));
    assert(scan(x0).0.push(scan(x0).1) =~= seq![octet0(v)]);
    assert(scan(x1).0.push(scan(x1).1) =~= seq![octet0(v), octet1(v)]);
    assert(scan(x2).0.push(scan(x2).1) =~= seq![octet0(v), octet1(v), octet2(v)]);
}

/// Canonical texts of distinct addresses are distinct.
pub proof fn lemma_ipv4_text_injective(v1: u32, v2: u32)
    requires
        ipv4_text(v1) == ipv4_text(v2),
    ensures
        v1 == v2,
{
    lemma_scan_canonical(v1);
    lemma_scan_canonical(v2);
    assert(octet0(v1) == octet0(v2) && octet1(v1) == octet1(v2) && octet2(v1) == octet2(v2)) by {
        let p1 = scan(ipv4_text(v1)).0;
        let p2 = scan(ipv4_text(v2)).0;
        assert(p1 == p2);
        assert(p1[0] == p2[0] && p1[1] == p2[1] && p1[2] == p2[2]);
    };
    lemma_octet_reassembly(v1);
    lemma_octet_reassembly(v2);
}

/// Parses a textual IPv4 address.
///
/// Accepts exactly the canonical dotted-quad texts: four decimal octets in
/// 0 to 255, separated by dots, with no leading zeros and nothing else in the
/// string. Everything else is an `AddressParseError`.
pub fn parse_ipv4(s: &str) -> (r: Result<Ipv4Address, SweepError>)
    ensures
        r matches Ok(ip) ==> s@ == ipv4_text(ip.value),
        r is Ok <==> is_ipv4_text(s@),
        r matches Err(e) ==> e == SweepError::AddressParseError,
{
    let n = s.unicode_len();
    let mut parts: Vec<u16> = Vec::new();
    let mut cur: u16 = 0;
    let mut i: usize = 0;
    while i < n
        invariant
            i <= n,
            n == s@.len(),
            parts@.map_values(|p: u16| p as int) == scan(s@.subrange(0, i as int)).0,
            cur as int == scan(s@.subrange(0, i as int)).1,
            cur <= 256,
        decreases n - i,
    {
        let ghost prefix = s@.subrange(0, i as int);
        let c = s.get_char(i);
        proof {
            assert(s@.subrange(0, i + 1) =~= prefix.push(c));
            lemma_scan_push(prefix, c);
        }
        let cu = c as u32;
        if 48 <= cu && cu <= 57 {
            let d = (cu - 48) as u16;
            let next = cur * 10 + d;
            cur = if next > 255 {
                256
            } else {
                next
            };
        } else if c == '.' {
            proof {
                assert(parts@.push(cur).map_values(|p: u16| p as int) =~= parts@.map_values(
                    |p: u16| p as int,
                ).push(cur as int));
            }
            parts.push(cur);
            cur = 0;
        } else {
            proof {
                assert(parts@.push(256u16).map_values(|p: u16| p as int) =~= parts@.map_values(
                    |p: u16| p as int,
                ).push(256int));
            }
            parts.push(256);
            cur = 0;
        }
        i += 1;
    }
    proof {
        assert(s@.subrange(0, n as int) =~= s@);
        assert(parts@.push(cur).map_values(|p: u16| p as int) =~= parts@.map_values(
            |p: u16| p as int,
        ).push(cur as int));
    }
    parts.push(cur);
    let ghost all_parts = scan(s@).0.push(scan(s@).1);
    assert(parts@.map_values(|p: u16| p as int) == all_parts);
    if parts.len() != 4 || parts[0] > 255 || parts[1] > 255 || parts[2] > 255 || parts[3] > 255 {
        proof {
            if is_ipv4_text(s@) {
                let v = choose|v: u32| s@ == ipv4_text(v);
                lemma_scan_canonical(v);
                lemma_octet_bounds(v);
                assert(all_parts =~= seq![octet0(v), octet1(v), octet2(v), octet3(v)]);
                assert(parts@.map_values(|p: u16| p as int).len() == 4);
                assert(false);
            }
        }
        return Err(SweepError::AddressParseError);
    }
    let w: u32 = (parts[0] as u32) * 0x100_0000 + (parts[1] as u32) * 0x1_0000 + (parts[2] as u32)
        * 256 + (parts[3] as u32);
    let t = format_ipv4(Ipv4Address { value: w });
    let se = s.to_owned();
    if se == t {
        proof {
            assert(s@ == ipv4_text(w));
            assert(is_ipv4_text(s@));
        }
        Ok(Ipv4Address { value: w })
    } else {
        proof {
            if is_ipv4_text(s@) {
                let v = choose|v: u32| s@ == ipv4_text(v);
                lemma_scan_canonical(v);
                assert(all_parts =~= seq![octet0(v), octet1(v), octet2(v), octet3(v)]);
                assert(parts@.map_values(|p: u16| p as int)[0] == octet0(v));
                assert(parts@.map_values(|p: u16| p as int)[1] == octet1(v));
                assert(parts@.map_values(|p: u16| p as int)[2] == octet2(v));
                assert(parts@.map_values(|p: u16| p as int)[3] == octet3(v));
                lemma_octet_reassembly(v);
                assert(w == v);
                assert(false);
            }
        }
        Err(SweepError::AddressParseError)
    }
}

} // verus!
