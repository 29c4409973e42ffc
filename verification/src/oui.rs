//! Vendor lookup by MAC prefix.
//!
//! The table is an explicitly constructed, explicitly passed value:
//! callers load it from CSV-shaped text (an embedded default or a file
//! the surrounding program read) and hand it to the lookup.  Keys are
//! the first six hexadecimal digits of a MAC, as a 24-bit number.

use vstd::prelude::*;
use std::collections::HashMap;

use crate::strutil::{
    spec_trim, spec_to_upper, spec_starts_with, spec_all_hex, spec_hex_val, spec_is_hex_digit,
    trim_str, to_ascii_upper, starts_with_str, is_hex_digit, parse_hex_u64, push_char,
};

verus! {

/// A vendor table: 24-bit MAC prefix to vendor name.
pub struct OuiTable {
    /// The prefix map.
    pub map: HashMap<u32, String>,
}

impl OuiTable {
    /// The mathematical value of the table.
    pub open spec fn model(self) -> Map<u32, Seq<char>> {
        self.map@.map_values(|v: String| v@)
    }

    /// An empty table.
    pub fn new() -> (r: OuiTable)
        ensures
            r.model() == Map::<u32, Seq<char>>::empty(),
    {
        let r = OuiTable { map: HashMap::new() };
        proof {
            assert(r.model() =~= Map::<u32, Seq<char>>::empty());
        }
        r
    }

    /// How many prefixes the table holds.
    pub fn len(&self) -> (r: usize)
        ensures
            r == self.model().dom().len(),
    {
        broadcast use vstd::std_specs::hash::group_hash_axioms;

        proof {
            assert(self.model().dom() =~= self.map@.dom());
        }
        self.map.len()
    }

    /// The vendor stored under one 24-bit prefix.
    pub fn prefix_vendor(&self, prefix: u32) -> (r: Option<String>)
        ensures
            r matches Some(v) ==> self.model().contains_key(prefix) && self.model()[prefix] == v@,
            r is None ==> !self.model().contains_key(prefix),
    {
        broadcast use vstd::std_specs::hash::group_hash_axioms;

        match self.map.get(&prefix) {
            Some(v) => Some(clone_str(v)),
            None => None,
        }
    }
}

/// Copy a string.
fn clone_str(s: &String) -> (r: String)
    ensures
        r@ == s@,
{
    s.clone()
}

/// The records of CSV-shaped text: one sequence of fields per record,
/// quoting and embedded commas handled.
pub uninterp spec fn csv_records_of(s: Seq<char>) -> Seq<Seq<Seq<char>>>;

/// Relies on csv's reader, headers off: it splits text into records
/// and fields, handling quoted fields; unreadable records are skipped.
/// The records depend on the text alone.
#[verifier::external_body]
fn csv_split(s: &str) -> (r: Vec<Vec<String>>)
    ensures
        r.deep_view() == csv_records_of(s@),
{
    let rdr = csv::ReaderBuilder::new().has_headers(false).from_reader(s.as_bytes());
    let mut out: Vec<Vec<String>> = Vec::new();
    for rec in rdr.into_records().flatten() {
        out.push(rec.iter().map(|f| f.to_string()).collect());
    }
    out
}

/// The key characters of a prefix field: the field without its MAC
/// delimiters.
pub open spec fn spec_prefix_key(prefix: Seq<char>) -> Seq<char> {
    prefix.filter(|c: char| c != ':' && c != '-')
}

/// The table entry of one CSV record, if it yields one: a record
/// starting `MA` (any case) carries assignment and organization in its
/// second and third fields, a plain record prefix and vendor in its
/// first and second; the prefix, stripped of delimiters, must be at
/// least six hexadecimal digits, and its first six are the key.
pub open spec fn spec_oui_entry(rec: Seq<Seq<char>>) -> Option<(u32, Seq<char>)> {
    if rec.len() == 0 {
        None
    } else {
        let first = spec_trim(rec[0]);
        if first.len() == 0 || first[0] == '#' {
            None
        } else {
            let pair = if spec_starts_with(spec_to_upper(first), "MA"@) && rec.len() >= 3 {
                Some((spec_trim(rec[1]), spec_trim(rec[2])))
            } else if rec.len() >= 2 {
                Some((spec_trim(rec[0]), spec_trim(rec[1])))
            } else {
                None
            };
            match pair {
                Some((prefix, vendor)) => {
                    let key = spec_prefix_key(prefix);
                    if key.len() >= 6 && spec_all_hex(key) {
                        Some((spec_hex_val(key.take(6)) as u32, vendor))
                    } else {
                        None
                    }
                },
                None => None,
            }
        }
    }
}

/// The table that a sequence of CSV records loads to: later records
/// override earlier ones with the same key.
pub open spec fn spec_oui_fold(recs: Seq<Seq<Seq<char>>>) -> Map<u32, Seq<char>>
    decreases recs.len(),
{
    if recs.len() == 0 {
        Map::empty()
    } else {
        let m = spec_oui_fold(recs.drop_last());
        match spec_oui_entry(recs.last()) {
            Some(e) => m.insert(e.0, e.1),
            None => m,
        }
    }
}

/// Powers of sixteen.
pub open spec fn spec_pow16(n: nat) -> int
    decreases n,
{
    if n == 0 {
        1
    } else {
        16 * spec_pow16((n - 1) as nat)
    }
}

/// A string of hexadecimal digits has a value below 16 to its length.
proof fn lemma_hex_val_bound(s: Seq<char>)
    requires
        spec_all_hex(s),
    ensures
        0 <= spec_hex_val(s) < spec_pow16(s.len() as nat),
    decreases s.len(),
{
    if s.len() == 0 {
    } else {
        assert(spec_all_hex(s.drop_last()));
        lemma_hex_val_bound(s.drop_last());
        let v = spec_hex_val(s.drop_last());
        let p = spec_pow16((s.len() - 1) as nat);
        assert(v * 16 + 15 < 16 * p) by (nonlinear_arith)
            requires
                v < p,
        ;
    }
}

/// Copy the key characters of a prefix field.
fn prefix_key(prefix: &str) -> (r: String)
    ensures
        r@ == spec_prefix_key(prefix@),
{
    broadcast use Seq::lemma_filter_push;

    let n = prefix.unicode_len();
    let mut out = String::new();
    let mut i: usize = 0;
    proof {
        assert(prefix@.take(0) =~= Seq::<char>::empty());
        assert(out@ =~= prefix@.take(0).filter(|c: char| c != ':' && c != '-'));
    }
    while i < n
        invariant
            n == prefix@.len(),
            i <= n,
            out@ == prefix@.take(i as int).filter(|c: char| c != ':' && c != '-'),
        decreases n - i,
    {
        let c = prefix.get_char(i);
        proof {
            assert(prefix@.take(i + 1) =~= prefix@.take(i as int).push(prefix@[i as int]));
            prefix@.take(i as int).lemma_filter_push(
                prefix@[i as int],
                |c: char| c != ':' && c != '-',
            );
        }
        if c != ':' && c != '-' {
            push_char(&mut out, c);
        }
        i = i + 1;
    }
    proof {
        assert(prefix@.take(n as int) =~= prefix@);
    }
    out
}

/// Whether every character of `s` is a hexadecimal digit.
fn all_hex(s: &str) -> (r: bool)
    ensures
        r == spec_all_hex(s@),
{
    let n = s.unicode_len();
    let mut i: usize = 0;
    while i < n
        invariant
            n == s@.len(),
            i <= n,
            forall|j: int| 0 <= j < i ==> spec_is_hex_digit(#[trigger] s@[j]),
        decreases n - i,
    {
        if !is_hex_digit(s.get_char(i)) {
            return false;
        }
        i = i + 1;
    }
    true
}

/// The table entry of one CSV record.
fn oui_entry(rec: &Vec<String>) -> (r: Option<(u32, String)>)
    ensures
        r matches Some(e) ==> spec_oui_entry(rec.deep_view()) == Some((e.0, e.1@)),
        r is None ==> spec_oui_entry(rec.deep_view()) is None,
{
    let ghost rv = rec.deep_view();
    if rec.len() == 0 {
        return None;
    }
    proof {
        assert(rv[0] == rec@[0]@);
    }
    let first = trim_str(rec[0].as_str());
    let fn_len = first.unicode_len();
    if fn_len == 0 {
        return None;
    }
    if first.as_str().get_char(0) == '#' {
        return None;
    }
    let upper = to_ascii_upper(first.as_str());
    let is_ma = starts_with_str(upper.as_str(), "MA");
    let pair: Option<(String, String)> = if is_ma && rec.len() >= 3 {
        proof {
            assert(rv[1] == rec@[1]@);
            assert(rv[2] == rec@[2]@);
        }
        Some((trim_str(rec[1].as_str()), trim_str(rec[2].as_str())))
    } else if rec.len() >= 2 {
        proof {
            assert(rv[1] == rec@[1]@);
        }
        Some((trim_str(rec[0].as_str()), trim_str(rec[1].as_str())))
    } else {
        None
    };
    match pair {
        Some((prefix, vendor)) => {
            let key = prefix_key(prefix.as_str());
            let klen = key.unicode_len();
            if klen >= 6 && all_hex(key.as_str()) {
                let key6 = key.as_str().substring_char(0, 6);
                proof {
                    assert(key6@ =~= key@.take(6));
                    assert(spec_all_hex(key6@));
                    lemma_hex_val_bound(key6@);
                    assert(spec_pow16(6) == 0x1000000) by {
                        reveal_with_fuel(spec_pow16, 7);
                    }
                }
                match parse_hex_u64(key6, 0xFFFFFFu64) {
                    Some(v) => Some((v as u32, vendor)),
                    None => {
                        proof {
                            assert(false);
                        }
                        None
                    },
                }
            } else {
                None
            }
        },
        None => None,
    }
}

/// Load a vendor table from CSV-shaped text.  Rows are
/// `prefix, vendor` or IEEE-style `MA-?, assignment, organization`;
/// comments, short rows and non-hexadecimal prefixes are skipped.
pub fn load_from_str(s: &str) -> (t: OuiTable)
    ensures
        t.model() == spec_oui_fold(csv_records_of(s@)),
{
    broadcast use vstd::std_specs::hash::group_hash_axioms;

    let records = csv_split(s);
    let ghost rviews = csv_records_of(s@);
    let n = records.len();
    let mut t = OuiTable::new();
    let mut i: usize = 0;
    proof {
        assert(rviews.take(0) =~= Seq::<Seq<Seq<char>>>::empty());
        assert(records.deep_view().len() == records@.len());
    }
    while i < n
        invariant
            n == records@.len(),
            rviews == csv_records_of(s@),
            rviews == records.deep_view(),
            rviews.len() == n,
            i <= n,
            t.model() == spec_oui_fold(rviews.take(i as int)),
        decreases n - i,
    {
        let rec: &Vec<String> = &records[i];
        proof {
            assert(rec.deep_view() == rviews[i as int]);
            assert(rviews.take(i + 1) =~= rviews.take(i as int).push(rviews[i as int]));
            assert(rviews.take(i + 1).drop_last() =~= rviews.take(i as int));
        }
        let ghost pre = t.model();
        match oui_entry(rec) {
            Some((k, v)) => {
                t.map.insert(k, v);
                proof {
                    assert(t.model() =~= pre.insert(k, v@));
                }
            },
            None => {},
        }
        i = i + 1;
    }
    proof {
        assert(rviews.take(n as int) =~= rviews);
    }
    t
}

/// The key a MAC string denotes for vendor lookup: its first six
/// hexadecimal digits, read as a 24-bit number; nothing when fewer
/// than six appear.
pub open spec fn spec_mac_key(mac: Seq<char>) -> Option<u32> {
    let raw = mac.filter(|c: char| spec_is_hex_digit(c));
    if raw.len() < 6 {
        None
    } else {
        Some(spec_hex_val(raw.take(6)) as u32)
    }
}

/// Look up the vendor of a MAC string in the table.  The MAC may be
/// delimited in any way; only its hexadecimal digits count.  An
/// unparsable MAC or an unknown prefix yields nothing.
pub fn lookup_vendor(table: &OuiTable, mac: &str) -> (r: Option<String>)
    ensures
        r matches Some(v) ==> spec_mac_key(mac@) matches Some(k) && table.model().contains_key(k)
            && table.model()[k] == v@,
        r is None ==> match spec_mac_key(mac@) {
            Some(k) => !table.model().contains_key(k),
            None => true,
        },
{
    broadcast use Seq::lemma_filter_push;

    let n = mac.unicode_len();
    let mut raw = String::new();
    let mut i: usize = 0;
    proof {
        assert(mac@.take(0) =~= Seq::<char>::empty());
        assert(raw@ =~= mac@.take(0).filter(|c: char| spec_is_hex_digit(c)));
    }
    while i < n
        invariant
            n == mac@.len(),
            i <= n,
            raw@ == mac@.take(i as int).filter(|c: char| spec_is_hex_digit(c)),
        decreases n - i,
    {
        let c = mac.get_char(i);
        proof {
            assert(mac@.take(i + 1) =~= mac@.take(i as int).push(mac@[i as int]));
            mac@.take(i as int).lemma_filter_push(
                mac@[i as int],
                |c: char| spec_is_hex_digit(c),
            );
        }
        if is_hex_digit(c) {
            push_char(&mut raw, c);
        }
        i = i + 1;
    }
    proof {
        assert(mac@.take(n as int) =~= mac@);
    }
    let rlen = raw.unicode_len();
    if rlen < 6 {
        return None;
    }
    let key6 = raw.as_str().substring_char(0, 6);
    proof {
        assert(key6@ =~= raw@.take(6));
        assert(spec_all_hex(key6@)) by {
            assert(forall|j: int|
                0 <= j < key6@.len() ==> spec_is_hex_digit(#[trigger] raw@.take(6)[j]));
        }
        lemma_hex_val_bound(key6@);
        assert(spec_pow16(6) == 0x1000000) by {
            reveal_with_fuel(spec_pow16, 7);
        }
    }
    match parse_hex_u64(key6, 0xFFFFFFu64) {
        Some(v) => table.prefix_vendor(v as u32),
        None => {
            proof {
                assert(false);
            }
            None
        },
    }
}

} // verus!
