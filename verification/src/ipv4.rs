//! IPv4 addresses as 32-bit values: parsing dotted-quad text and
//! formatting back to text.

use vstd::prelude::*;

use crate::strutil::{
    spec_split, spec_all_digits, spec_dec_val, spec_dec_str, Sep, split_sep, parse_dec_u64,
    push_dec_u64, push_char,
};

verus! {

/// True when `t` is a valid dotted-quad octet: one to three decimal
/// digits, no leading zero, value at most 255.
pub open spec fn spec_octet_ok(t: Seq<char>) -> bool {
    1 <= t.len() <= 3 && spec_all_digits(t) && spec_dec_val(t) <= 255 && (t.len() > 1 ==> t[0]
        != '0')
}

/// The 32-bit value of four octets.
pub open spec fn spec_ipv4_of(a: int, b: int, c: int, d: int) -> int {
    a * 0x1000000 + b * 0x10000 + c * 0x100 + d
}

/// The address denoted by dotted-quad text, if it is well formed.
pub open spec fn spec_parse_ipv4(s: Seq<char>) -> Option<u32> {
    let parts = spec_split(s, Sep::Exact('.'));
    if parts.len() == 4 && (forall|i: int| 0 <= i < 4 ==> spec_octet_ok(#[trigger] parts[i])) {
        Some(
            spec_ipv4_of(
                spec_dec_val(parts[0]),
                spec_dec_val(parts[1]),
                spec_dec_val(parts[2]),
                spec_dec_val(parts[3]),
            ) as u32,
        )
    } else {
        None
    }
}

/// Parse dotted-quad IPv4 text such as `"192.168.0.1"`.
pub fn parse_ipv4(s: &str) -> (r: Option<u32>)
    ensures
        r == spec_parse_ipv4(s@),
{
    let parts = split_sep(s, Sep::Exact('.'));
    let ghost pviews = spec_split(s@, Sep::Exact('.'));
    if parts.len() != 4 {
        return None;
    }
    let mut octets: Vec<u32> = Vec::new();
    let mut i: usize = 0;
    while i < 4
        invariant
            parts@.len() == 4,
            pviews.len() == 4,
            pviews == spec_split(s@, Sep::Exact('.')),
            pviews == crate::strutil::views_of(parts@),
            i <= 4,
            octets@.len() == i,
            forall|j: int|
                0 <= j < i ==> spec_octet_ok(#[trigger] pviews[j]) && octets@[j] == spec_dec_val(
                    pviews[j],
                ),
        decreases 4 - i,
    {
        let tok: &String = &parts[i];
        proof {
            assert(tok@ == pviews[i as int]);
        }
        let tok_str = tok.as_str();
        let n = tok_str.unicode_len();
        let mut ok = n >= 1 && n <= 3;
        if ok && n > 1 {
            ok = tok_str.get_char(0) != '0';
        }
        if !ok {
            proof {
                assert(!spec_octet_ok(pviews[i as int]));
                assert(spec_parse_ipv4(s@) is None);
            }
            return None;
        }
        match parse_dec_u64(tok_str, 255) {
            Some(v) => {
                octets.push(v as u32);
            },
            None => {
                proof {
                    assert(!spec_octet_ok(pviews[i as int]));
                    assert(spec_parse_ipv4(s@) is None);
                }
                return None;
            },
        }
        i = i + 1;
    }
    let value: u32 = octets[0] * 0x1000000 + octets[1] * 0x10000 + octets[2] * 0x100 + octets[3];
    proof {
        assert(spec_parse_ipv4(s@) == Some(value));
    }
    Some(value)
}

/// The dotted-quad text of an address.
pub open spec fn spec_ipv4_str(ip: u32) -> Seq<char> {
    spec_dec_str(ip as int / 0x1000000) + seq!['.'] + spec_dec_str((ip as int / 0x10000) % 0x100)
        + seq!['.'] + spec_dec_str((ip as int / 0x100) % 0x100) + seq!['.'] + spec_dec_str(
        ip as int % 0x100,
    )
}

/// Format an address as dotted-quad text.
pub fn format_ipv4(ip: u32) -> (r: String)
    ensures
        r@ == spec_ipv4_str(ip),
{
    let mut out = String::new();
    push_dec_u64(&mut out, (ip / 0x1000000) as u64);
    push_char(&mut out, '.');
    push_dec_u64(&mut out, ((ip / 0x10000) % 0x100) as u64);
    push_char(&mut out, '.');
    push_dec_u64(&mut out, ((ip / 0x100) % 0x100) as u64);
    push_char(&mut out, '.');
    push_dec_u64(&mut out, (ip % 0x100) as u64);
    proof {
        assert(out@ =~= spec_ipv4_str(ip));
    }
    out
}

} // verus!
