//! Link-layer (MAC) addresses: parsing from colon- or hyphen-delimited
//! hexadecimal text, formatting back to text, and the round-trip law.

use vstd::prelude::*;

use crate::strutil::{
    spec_split, spec_trim, spec_all_hex, spec_hex_val, spec_hex2, spec_hex_char,
    spec_hex_digit_val, Sep, split_sep, trim_str, parse_hex_u64, push_hex2, push_char,
};
use crate::MacAddr;

verus! {

/// True when `t` is a valid MAC byte token: non-empty hexadecimal text
/// whose value fits one byte.
pub open spec fn spec_mac_token_ok(t: Seq<char>) -> bool {
    t.len() > 0 && spec_all_hex(t) && spec_hex_val(t) <= 255
}

/// The six bytes denoted by `s`, when `s` (after trimming ASCII
/// whitespace) is six valid byte tokens separated by ':' or '-'.
pub open spec fn spec_parse_mac(s: Seq<char>) -> Option<Seq<u8>> {
    let parts = spec_split(spec_trim(s), Sep::MacSep);
    if parts.len() == 6 && (forall|i: int| 0 <= i < 6 ==> spec_mac_token_ok(#[trigger] parts[i])) {
        Some(Seq::new(6, |i: int| spec_hex_val(parts[i]) as u8))
    } else {
        None
    }
}

/// Parse a MAC address such as `"00:11:22:33:44:55"` or
/// `"00-11-22-33-44-55"` into its six bytes.
pub fn parse_mac(s: &str) -> (r: Option<MacAddr>)
    ensures
        r matches Some(m) ==> spec_parse_mac(s@) == Some(m@),
        r is None ==> spec_parse_mac(s@) is None,
{
    broadcast use vstd::array::group_array_axioms;

    let trimmed = trim_str(s);
    let parts = split_sep(trimmed.as_str(), Sep::MacSep);
    let ghost pviews = spec_split(spec_trim(s@), Sep::MacSep);
    if parts.len() != 6 {
        return None;
    }
    let mut bytes: Vec<u8> = Vec::new();
    let mut i: usize = 0;
    while i < 6
        invariant
            parts@.len() == 6,
            pviews.len() == 6,
            pviews == spec_split(spec_trim(s@), Sep::MacSep),
            pviews == crate::strutil::views_of(parts@),
            i <= 6,
            bytes@.len() == i,
            forall|j: int|
                0 <= j < i ==> spec_mac_token_ok(#[trigger] pviews[j]) && bytes@[j] == spec_hex_val(
                    pviews[j],
                ),
        decreases 6 - i,
    {
        let tok: &String = &parts[i];
        proof {
            assert(tok@ == pviews[i as int]);
        }
        match parse_hex_u64(tok.as_str(), 255) {
            Some(v) => {
                bytes.push(v as u8);
            },
            None => {
                proof {
                    assert(pviews[i as int] == parts@[i as int]@);
                    assert(!spec_mac_token_ok(parts@[i as int]@));
                    assert(!spec_mac_token_ok(spec_split(spec_trim(s@), Sep::MacSep)[i as int]));
                    assert(spec_parse_mac(s@) is None);
                }
                return None;
            },
        }
        i = i + 1;
    }
    let m: MacAddr = [bytes[0], bytes[1], bytes[2], bytes[3], bytes[4], bytes[5]];
    proof {
        assert(forall|j: int| 0 <= j < 6 ==> spec_mac_token_ok(#[trigger] pviews[j]));
        assert(m@ =~= Seq::new(6, |i: int| spec_hex_val(pviews[i]) as u8));
        assert(spec_parse_mac(s@) == Some(m@));
    }
    Some(m)
}

/// The text of a MAC address: six two-digit lower-case hexadecimal byte
/// fields joined by `sep`.
pub open spec fn spec_format_mac(m: Seq<u8>, sep: char) -> Seq<char> {
    spec_hex2(m[0]) + seq![sep] + spec_hex2(m[1]) + seq![sep] + spec_hex2(m[2]) + seq![sep]
        + spec_hex2(m[3]) + seq![sep] + spec_hex2(m[4]) + seq![sep] + spec_hex2(m[5])
}

/// Format a MAC address with an arbitrary single-character delimiter.
pub fn format_mac_with(m: &MacAddr, sep: char) -> (r: String)
    ensures
        r@ == spec_format_mac(m@, sep),
{
    broadcast use vstd::array::group_array_axioms;

    let mut out = String::new();
    let mut i: usize = 0;
    push_hex2(&mut out, m[0]);
    push_char(&mut out, sep);
    push_hex2(&mut out, m[1]);
    push_char(&mut out, sep);
    push_hex2(&mut out, m[2]);
    push_char(&mut out, sep);
    push_hex2(&mut out, m[3]);
    push_char(&mut out, sep);
    push_hex2(&mut out, m[4]);
    push_char(&mut out, sep);
    push_hex2(&mut out, m[5]);
    proof {
        assert(out@ =~= spec_format_mac(m@, sep));
    }
    out
}

/// A two-digit hexadecimal byte field is a valid MAC byte token and
/// denotes the byte it was formatted from.
pub proof fn lemma_hex2_token(b: u8)
    ensures
        spec_mac_token_ok(spec_hex2(b)),
        spec_hex_val(spec_hex2(b)) == b,
        forall|i: int|
            0 <= i < spec_hex2(b).len() ==> crate::strutil::spec_is_hex_digit(
                #[trigger] spec_hex2(b)[i],
            ),
        !crate::strutil::spec_is_ws(spec_hex2(b)[0]),
        !crate::strutil::spec_is_ws(spec_hex2(b)[1]),
        spec_hex2(b)[0] != ':' && spec_hex2(b)[0] != '-',
        spec_hex2(b)[1] != ':' && spec_hex2(b)[1] != '-',
{
    let hi = b as int / 16;
    let lo = b as int % 16;
    let s = spec_hex2(b);
    assert(0 <= hi < 16 && 0 <= lo < 16);
    assert(s.drop_last() =~= seq![spec_hex_char(hi)]);
    assert(s.last() == spec_hex_char(lo));
    assert(seq![spec_hex_char(hi)].drop_last() =~= Seq::<char>::empty());
    assert(spec_hex_val(Seq::<char>::empty()) == 0);
    assert(spec_hex_val(seq![spec_hex_char(hi)]) == spec_hex_digit_val(spec_hex_char(hi)));
    assert(spec_hex_val(s) == spec_hex_digit_val(spec_hex_char(hi)) * 16 + spec_hex_digit_val(
        spec_hex_char(lo),
    ));
}

/// A formatted byte field holds no MAC delimiter characters.
proof fn lemma_hex2_sep_free(b: u8)
    ensures
        forall|i: int|
            0 <= i < spec_hex2(b).len() ==> !crate::strutil::spec_is_sep(
                Sep::MacSep,
                #[trigger] spec_hex2(b)[i],
            ),
{
    lemma_hex2_token(b);
    assert forall|i: int| 0 <= i < spec_hex2(b).len() implies !crate::strutil::spec_is_sep(
        Sep::MacSep,
        #[trigger] spec_hex2(b)[i],
    ) by {
        assert(i == 0 || i == 1);
    }
}

/// Round trip: parsing a formatted MAC address, colon- or
/// hyphen-delimited, returns exactly the bytes that were formatted.
#[verifier::rlimit(100)]
pub proof fn lemma_mac_round_trip(m: Seq<u8>, sep: char)
    requires
        m.len() == 6,
        sep == ':' || sep == '-',
    ensures
        spec_parse_mac(spec_format_mac(m, sep)) == Some(m),
{
    let f = spec_format_mac(m, sep);
    assert forall|j: int| 0 <= j < 6 implies spec_mac_token_ok(#[trigger] spec_hex2(m[j]))
        && !crate::strutil::spec_is_ws(spec_hex2(m[j])[0]) by {
        lemma_hex2_token(m[j]);
    }
    lemma_hex2_token(m[0]);
    lemma_hex2_token(m[5]);
    assert(f[0] == spec_hex2(m[0])[0]);
    assert(f.last() == spec_hex2(m[5])[1]);
    crate::strutil::lemma_trim_id(f);
    let t5 = spec_hex2(m[5]);
    let t4 = spec_hex2(m[4]) + seq![sep] + t5;
    let t3 = spec_hex2(m[3]) + seq![sep] + t4;
    let t2 = spec_hex2(m[2]) + seq![sep] + t3;
    let t1 = spec_hex2(m[1]) + seq![sep] + t2;
    let t0 = spec_hex2(m[0]) + seq![sep] + t1;
    lemma_hex2_sep_free(m[0]);
    lemma_hex2_sep_free(m[1]);
    lemma_hex2_sep_free(m[2]);
    lemma_hex2_sep_free(m[3]);
    lemma_hex2_sep_free(m[4]);
    lemma_hex2_sep_free(m[5]);
    crate::strutil::lemma_split_single(t5, Sep::MacSep);
    crate::strutil::lemma_split_prefix(spec_hex2(m[4]), t5, Sep::MacSep, sep);
    crate::strutil::lemma_split_prefix(spec_hex2(m[3]), t4, Sep::MacSep, sep);
    crate::strutil::lemma_split_prefix(spec_hex2(m[2]), t3, Sep::MacSep, sep);
    crate::strutil::lemma_split_prefix(spec_hex2(m[1]), t2, Sep::MacSep, sep);
    crate::strutil::lemma_split_prefix(spec_hex2(m[0]), t1, Sep::MacSep, sep);
    assert(f =~= t0);
    let parts = spec_split(f, Sep::MacSep);
    assert(parts =~= seq![
        spec_hex2(m[0]),
        spec_hex2(m[1]),
        spec_hex2(m[2]),
        spec_hex2(m[3]),
        spec_hex2(m[4]),
        spec_hex2(m[5]),
    ]);
    assert forall|j: int| 0 <= j < 6 implies spec_mac_token_ok(#[trigger] parts[j]) by {
        lemma_hex2_token(m[j]);
    }
    assert forall|j: int| 0 <= j < 6 implies Seq::new(
        6,
        |i: int| spec_hex_val(parts[i]) as u8,
    )[j] == m[j] by {
        lemma_hex2_token(m[j]);
    }
    assert(Seq::new(6, |i: int| spec_hex_val(parts[i]) as u8) =~= m);
}

/// Format a MAC address in the canonical colon-delimited lower-case form.
pub fn format_mac(m: &MacAddr) -> (r: String)
    ensures
        r@ == spec_format_mac(m@, ':'),
{
    format_mac_with(m, ':')
}

} // verus!
