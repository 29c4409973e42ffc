//! MAC resolution from OS neighbor-table text.
//!
//! The OS is queried by the surrounding program (a structured
//! neighbor-table command, the raw table file, a legacy table command, an
//! active probe); the text each query produced is parsed and searched
//! here, and the strict fallback chain of the resolver is a verified
//! step function over those results.

use vstd::prelude::*;

use crate::ipv4::{spec_parse_ipv4, spec_ipv4_str, parse_ipv4, format_ipv4};
use crate::mac::{spec_parse_mac, parse_mac};
use crate::strutil::{
    spec_split, spec_words, views_of, Sep, split_sep, words, str_eq,
};
use crate::MacAddr;

verus! {

/// Errors of the resolver.  Strategy failures are swallowed by the
/// chain; only structural problems are ever reported.
#[derive(Debug, Clone, PartialEq, Eq)]
pub enum ArpError {
    /// An input/output failure, with its message.
    Io(String),
    /// A structural parse failure, with its message.
    Parse(String),
    /// A required external tool is not available.
    ToolUnavailable,
}

/// A line with its trailing carriage return removed.
pub open spec fn spec_line_clean(l: Seq<char>) -> Seq<char> {
    if l.len() > 0 && l.last() == '\r' {
        l.drop_last()
    } else {
        l
    }
}

/// The lines of `s`: newline-separated pieces, each without a trailing
/// carriage return.
pub open spec fn spec_lines(s: Seq<char>) -> Seq<Seq<char>> {
    spec_split(s, Sep::Exact('\n')).map_values(|l: Seq<char>| spec_line_clean(l))
}

/// Split text into lines.
pub fn lines_of(s: &str) -> (r: Vec<String>)
    ensures
        views_of(r@) == spec_lines(s@),
{
    let pieces = split_sep(s, Sep::Exact('\n'));
    let ghost pviews = spec_split(s@, Sep::Exact('\n'));
    let n = pieces.len();
    let mut out: Vec<String> = Vec::new();
    proof {
        assert(views_of(out@) =~= pviews.map_values(|l: Seq<char>| spec_line_clean(l)).take(0));
    }
    for i in 0..n
        invariant
            n == pieces@.len(),
            pviews == spec_split(s@, Sep::Exact('\n')),
            pviews == views_of(pieces@),
            views_of(out@) == pviews.map_values(|l: Seq<char>| spec_line_clean(l)).take(i as int),
        decreases n - i,
    {
        let ghost pre = out@;
        let piece: &String = &pieces[i];
        proof {
            assert(piece@ == pviews[i as int]);
        }
        let pstr = piece.as_str();
        let ln = pstr.unicode_len();
        if ln > 0 && pstr.get_char(ln - 1) == '\r' {
            let cleaned = pstr.substring_char(0, ln - 1);
            proof {
                assert(piece@.drop_last() =~= piece@.subrange(0, ln - 1));
            }
            out.push(cleaned.to_owned());
        } else {
            out.push(clone_str(piece));
        }
        proof {
            let f = |l: Seq<char>| spec_line_clean(l);
            assert(views_of(out@) =~= views_of(pre).push(spec_line_clean(pviews[i as int])));
            assert(pviews.map_values(f).take(i + 1) =~= pviews.map_values(f).take(i as int).push(
                f(pviews[i as int]),
            ));
        }
    }
    proof {
        assert(pviews.map_values(|l: Seq<char>| spec_line_clean(l)).take(pviews.len() as int)
            =~= spec_lines(s@));
    }
    out
}

/// Copy a string.
fn clone_str(s: &String) -> (r: String)
    ensures
        r@ == s@,
{
    s.clone()
}

/// A neighbor-table entry: address, MAC text, device name.
pub type NeighborEntry = (u32, String, String);

/// The mathematical value of an entry.
pub open spec fn spec_entry_view(e: NeighborEntry) -> (u32, Seq<char>, Seq<char>) {
    (e.0, e.1@, e.2@)
}

/// Views of a vector of entries.
pub open spec fn entry_views(v: Seq<NeighborEntry>) -> Seq<(u32, Seq<char>, Seq<char>)> {
    v.map_values(|e: NeighborEntry| spec_entry_view(e))
}

/// Collect the lines that a line parser accepts, in order.
pub open spec fn spec_collect<T>(ls: Seq<Seq<char>>, f: spec_fn(Seq<char>) -> Option<T>) -> Seq<T>
    decreases ls.len(),
{
    if ls.len() == 0 {
        Seq::empty()
    } else {
        let pre = spec_collect(ls.drop_last(), f);
        match f(ls.last()) {
            Some(e) => pre.push(e),
            None => pre,
        }
    }
}

/// The entry of one line of the raw neighbor-table file: at least six
/// whitespace-separated fields, the first a well-formed IPv4 address;
/// the MAC text is the fourth field and the device the sixth.
pub open spec fn spec_proc_arp_line(l: Seq<char>) -> Option<(u32, Seq<char>, Seq<char>)> {
    let ws = spec_words(l);
    if ws.len() >= 6 {
        match spec_parse_ipv4(ws[0]) {
            Some(ip) => Some((ip, ws[3], ws[5])),
            None => None,
        }
    } else {
        None
    }
}

/// The entries of the raw neighbor-table file text: every well-formed
/// line after the header line, in order.
pub open spec fn spec_proc_arp_entries(s: Seq<char>) -> Seq<(u32, Seq<char>, Seq<char>)> {
    spec_collect(spec_lines(s).skip(1), |l: Seq<char>| spec_proc_arp_line(l))
}

/// Parse one line of the raw neighbor-table file.
fn parse_proc_arp_line(l: &str) -> (r: Option<NeighborEntry>)
    ensures
        r matches Some(e) ==> spec_proc_arp_line(l@) == Some(spec_entry_view(e)),
        r is None ==> spec_proc_arp_line(l@) is None,
{
    let ws = words(l);
    proof {
        assert(views_of(ws@) == spec_words(l@));
    }
    if ws.len() < 6 {
        return None;
    }
    let ip = match parse_ipv4(ws[0].as_str()) {
        Some(ip) => ip,
        None => {
            proof {
                assert(views_of(ws@)[0] == ws@[0]@);
            }
            return None;
        },
    };
    proof {
        assert(views_of(ws@)[0] == ws@[0]@);
        assert(views_of(ws@)[3] == ws@[3]@);
        assert(views_of(ws@)[5] == ws@[5]@);
    }
    Some((ip, clone_str(&ws[3]), clone_str(&ws[5])))
}

/// Parse the text of the raw neighbor-table file (header line first)
/// into its entries.  Malformed lines are skipped, not fatal.
pub fn parse_proc_net_arp(content: &str) -> (r: Vec<NeighborEntry>)
    ensures
        entry_views(r@) == spec_proc_arp_entries(content@),
{
    let ls = lines_of(content);
    let ghost lviews = spec_lines(content@);
    let ghost f = |l: Seq<char>| spec_proc_arp_line(l);
    let n = ls.len();
    let mut out: Vec<NeighborEntry> = Vec::new();
    proof {
        assert(lviews.skip(1).take(0) =~= Seq::<Seq<char>>::empty());
        assert(entry_views(out@) =~= spec_collect(lviews.skip(1).take(0), f));
    }
    let mut i: usize = 1;
    while i < n
        invariant
            n == ls@.len(),
            lviews == spec_lines(content@),
            lviews == views_of(ls@),
            1 <= i <= n || (n == 0 && i == 1),
            f == (|l: Seq<char>| spec_proc_arp_line(l)),
            entry_views(out@) == spec_collect(lviews.skip(1).take(i - 1), f),
        decreases n - i,
    {
        let ghost pre = out@;
        let ghost pref = lviews.skip(1).take(i - 1);
        let ghost x = lviews.skip(1)[i - 1];
        let line: &String = &ls[i];
        proof {
            assert(line@ == lviews[i as int]);
            assert(x == lviews[i as int]);
            assert(lviews.skip(1).take(i as int) =~= pref.push(x));
            assert(pref.push(x).drop_last() =~= pref);
            assert(pref.push(x).last() == x);
        }
        match parse_proc_arp_line(line.as_str()) {
            Some(e) => {
                out.push(e);
                proof {
                    assert(f(x) == Some(spec_entry_view(e)));
                    assert(spec_collect(pref.push(x), f) == spec_collect(pref, f).push(
                        spec_entry_view(e),
                    ));
                    assert(entry_views(out@) =~= entry_views(pre).push(spec_entry_view(e)));
                }
            },
            None => {
                proof {
                    assert(f(x) is None);
                    assert(spec_collect(pref.push(x), f) == spec_collect(pref, f));
                }
            },
        }
        i = i + 1;
    }
    proof {
        if n == 0 {
            assert(lviews.skip(1).take(0) =~= lviews.skip(1));
        } else {
            assert(lviews.skip(1).take(n - 1) =~= lviews.skip(1));
        }
    }
    out
}

/// The last field that follows an occurrence of `key`, scanning the
/// fields after the first one; empty if `key` never occurs there.
pub open spec fn spec_last_after(ws: Seq<Seq<char>>, key: Seq<char>) -> Seq<char>
    decreases ws.len(),
{
    if ws.len() < 3 {
        Seq::empty()
    } else if ws[ws.len() - 2] == key {
        ws[ws.len() - 1]
    } else {
        spec_last_after(ws.drop_last(), key)
    }
}

/// Find the last field following `key`, ignoring a `key` in the first
/// position.
fn last_after(ws: &Vec<String>, key: &str) -> (r: String)
    ensures
        r@ == spec_last_after(views_of(ws@), key@),
{
    let n = ws.len();
    let mut cur = String::new();
    let ghost wviews = views_of(ws@);
    proof {
        if n >= 2 {
            assert(wviews.take(2).len() == 2);
            assert(spec_last_after(wviews.take(2), key@) =~= Seq::<char>::empty());
        }
    }
    if n < 2 {
        proof {
            assert(spec_last_after(wviews, key@) =~= Seq::<char>::empty());
        }
        return cur;
    }
    let mut i: usize = 1;
    while i + 1 < n
        invariant
            n == ws@.len(),
            wviews == views_of(ws@),
            n >= 2,
            1 <= i <= n - 1,
            cur@ == spec_last_after(wviews.take(i + 1), key@),
        decreases n - i,
    {
        let tok: &String = &ws[i];
        proof {
            assert(tok@ == wviews[i as int]);
            assert(wviews.take(i + 2).drop_last() =~= wviews.take(i + 1));
            assert(wviews.take(i + 2).last() == wviews[i + 1]);
            assert(wviews.take(i + 2)[i as int] == wviews[i as int]);
        }
        if str_eq(tok.as_str(), key) {
            let nxt: &String = &ws[i + 1];
            proof {
                assert(nxt@ == wviews[i + 1]);
            }
            cur = clone_str(nxt);
        }
        i = i + 1;
    }
    proof {
        assert(wviews.take(i + 1) =~= wviews);
    }
    cur
}

/// The entry of one structured neighbor-table line, such as
/// `"192.168.1.1 dev eth0 lladdr 00:aa:bb:cc:dd:ee REACHABLE"`: at
/// least five fields, a well-formed address first, and a non-empty MAC
/// text after the last `lladdr` key; the device follows `dev`.
pub open spec fn spec_neigh_line(l: Seq<char>) -> Option<(u32, Seq<char>, Seq<char>)> {
    let ws = spec_words(l);
    if ws.len() >= 5 {
        match spec_parse_ipv4(ws[0]) {
            Some(ip) => {
                let m = spec_last_after(ws, "lladdr"@);
                let d = spec_last_after(ws, "dev"@);
                if m.len() > 0 {
                    Some((ip, m, d))
                } else {
                    None
                }
            },
            None => None,
        }
    } else {
        None
    }
}

/// The entries of structured neighbor-table text, in order.
pub open spec fn spec_neigh_entries(s: Seq<char>) -> Seq<(u32, Seq<char>, Seq<char>)> {
    spec_collect(spec_lines(s), |l: Seq<char>| spec_neigh_line(l))
}

/// Parse one structured neighbor-table line.
fn parse_neigh_line(l: &str) -> (r: Option<NeighborEntry>)
    ensures
        r matches Some(e) ==> spec_neigh_line(l@) == Some(spec_entry_view(e)),
        r is None ==> spec_neigh_line(l@) is None,
{
    let ws = words(l);
    proof {
        assert(views_of(ws@) == spec_words(l@));
    }
    if ws.len() < 5 {
        return None;
    }
    let ip = match parse_ipv4(ws[0].as_str()) {
        Some(ip) => ip,
        None => {
            proof {
                assert(views_of(ws@)[0] == ws@[0]@);
            }
            return None;
        },
    };
    proof {
        assert(views_of(ws@)[0] == ws@[0]@);
    }
    let m = last_after(&ws, "lladdr");
    let d = last_after(&ws, "dev");
    if m.unicode_len() == 0 {
        return None;
    }
    Some((ip, m, d))
}

/// Parse structured neighbor-table text into its entries.  Malformed
/// or short lines are skipped, not fatal.
pub fn parse_ip_neigh(output: &str) -> (r: Vec<NeighborEntry>)
    ensures
        entry_views(r@) == spec_neigh_entries(output@),
{
    let ls = lines_of(output);
    let ghost lviews = spec_lines(output@);
    let ghost f = |l: Seq<char>| spec_neigh_line(l);
    let n = ls.len();
    let mut out: Vec<NeighborEntry> = Vec::new();
    proof {
        assert(lviews.take(0) =~= Seq::<Seq<char>>::empty());
        assert(entry_views(out@) =~= spec_collect(lviews.take(0), f));
    }
    let mut i: usize = 0;
    while i < n
        invariant
            n == ls@.len(),
            lviews == spec_lines(output@),
            lviews == views_of(ls@),
            i <= n,
            f == (|l: Seq<char>| spec_neigh_line(l)),
            entry_views(out@) == spec_collect(lviews.take(i as int), f),
        decreases n - i,
    {
        let ghost pre = out@;
        let ghost pref = lviews.take(i as int);
        let ghost x = lviews[i as int];
        let line: &String = &ls[i];
        proof {
            assert(line@ == lviews[i as int]);
            assert(lviews.take(i + 1) =~= pref.push(x));
            assert(pref.push(x).drop_last() =~= pref);
            assert(pref.push(x).last() == x);
        }
        match parse_neigh_line(line.as_str()) {
            Some(e) => {
                out.push(e);
                proof {
                    assert(f(x) == Some(spec_entry_view(e)));
                    assert(spec_collect(pref.push(x), f) == spec_collect(pref, f).push(
                        spec_entry_view(e),
                    ));
                    assert(entry_views(out@) =~= entry_views(pre).push(spec_entry_view(e)));
                }
            },
            None => {
                proof {
                    assert(f(x) is None);
                    assert(spec_collect(pref.push(x), f) == spec_collect(pref, f));
                }
            },
        }
        i = i + 1;
    }
    proof {
        assert(lviews.take(n as int) =~= lviews);
    }
    out
}

/// The first entry for `ip` whose MAC text parses, scanning in order.
pub open spec fn spec_first_mac(es: Seq<(u32, Seq<char>, Seq<char>)>, ip: u32) -> Option<Seq<u8>>
    decreases es.len(),
{
    if es.len() == 0 {
        None
    } else if es[0].0 == ip && spec_parse_mac(es[0].1) is Some {
        spec_parse_mac(es[0].1)
    } else {
        spec_first_mac(es.drop_first(), ip)
    }
}

/// Scan entries for the first parsable MAC of `ip`.
pub fn first_mac_of(entries: &Vec<NeighborEntry>, ip: u32) -> (r: Option<MacAddr>)
    ensures
        r matches Some(m) ==> spec_first_mac(entry_views(entries@), ip) == Some(m@),
        r is None ==> spec_first_mac(entry_views(entries@), ip) is None,
{
    let n = entries.len();
    let ghost evs = entry_views(entries@);
    let mut i: usize = 0;
    proof {
        assert(evs.skip(0) =~= evs);
    }
    while i < n
        invariant
            n == entries@.len(),
            evs == entry_views(entries@),
            i <= n,
            spec_first_mac(evs, ip) == spec_first_mac(evs.skip(i as int), ip),
        decreases n - i,
    {
        let e: &NeighborEntry = &entries[i];
        proof {
            assert(spec_entry_view(*e) == evs[i as int]);
            assert(evs.skip(i as int)[0] == evs[i as int]);
            assert(evs.skip(i as int).drop_first() =~= evs.skip(i + 1));
        }
        if e.0 == ip {
            match parse_mac(e.1.as_str()) {
                Some(m) => {
                    return Some(m);
                },
                None => {},
            }
        }
        i = i + 1;
    }
    proof {
        assert(evs.skip(n as int) =~= Seq::<(u32, Seq<char>, Seq<char>)>::empty());
    }
    None
}

/// The MAC of `ip` in legacy table-command text: after the header
/// line, the first line of at least three fields whose first field is
/// the dotted-quad text of `ip` and whose third field parses as a MAC.
pub open spec fn spec_arp_cmd_line(ip: u32, l: Seq<char>) -> Option<Seq<u8>> {
    let ws = spec_words(l);
    if ws.len() >= 3 && ws[0] == spec_ipv4_str(ip) && spec_parse_mac(ws[2]) is Some {
        spec_parse_mac(ws[2])
    } else {
        None
    }
}

/// The first MAC that the legacy table text yields for `ip`.
pub open spec fn spec_arp_cmd_mac(s: Seq<char>, ip: u32) -> Option<Seq<u8>> {
    spec_first_some(spec_lines(s).skip(1), |l: Seq<char>| spec_arp_cmd_line(ip, l))
}

/// The first line that a line scanner accepts.
pub open spec fn spec_first_some<T>(ls: Seq<Seq<char>>, f: spec_fn(Seq<char>) -> Option<T>) -> Option<T>
    decreases ls.len(),
{
    if ls.len() == 0 {
        None
    } else if f(ls[0]) is Some {
        f(ls[0])
    } else {
        spec_first_some(ls.drop_first(), f)
    }
}

/// Scan legacy table-command text for the MAC of `ip`.
pub fn arp_cmd_mac(output: &str, ip: u32) -> (r: Option<MacAddr>)
    ensures
        r matches Some(m) ==> spec_arp_cmd_mac(output@, ip) == Some(m@),
        r is None ==> spec_arp_cmd_mac(output@, ip) is None,
{
    let ls = lines_of(output);
    let ghost lviews = spec_lines(output@);
    let ghost f = |l: Seq<char>| spec_arp_cmd_line(ip, l);
    let n = ls.len();
    let ip_str = format_ipv4(ip);
    let mut i: usize = 1;
    proof {
        assert(lviews.skip(1).skip(0) =~= lviews.skip(1));
    }
    while i < n
        invariant
            n == ls@.len(),
            lviews == spec_lines(output@),
            lviews == views_of(ls@),
            ip_str@ == spec_ipv4_str(ip),
            1 <= i <= n || (n == 0 && i == 1),
            f == (|l: Seq<char>| spec_arp_cmd_line(ip, l)),
            spec_first_some(lviews.skip(1), f) == spec_first_some(lviews.skip(i as int), f),
        decreases n - i,
    {
        let line: &String = &ls[i];
        proof {
            assert(line@ == lviews[i as int]);
            assert(lviews.skip(i as int)[0] == lviews[i as int]);
            assert(lviews.skip(i as int).drop_first() =~= lviews.skip(i + 1));
        }
        let ws = words(line.as_str());
        proof {
            assert(views_of(ws@) == spec_words(line@));
        }
        if ws.len() >= 3 {
            proof {
                assert(views_of(ws@)[0] == ws@[0]@);
                assert(views_of(ws@)[2] == ws@[2]@);
            }
            if str_eq(ws[0].as_str(), ip_str.as_str()) {
                match parse_mac(ws[2].as_str()) {
                    Some(m) => {
                        return Some(m);
                    },
                    None => {},
                }
            }
        }
        i = i + 1;
    }
    proof {
        if n == 0 {
            assert(lviews.skip(1).len() == 0);
        } else {
            assert(lviews.skip(n as int) =~= Seq::<Seq<char>>::empty());
        }
    }
    None
}

/// Look up the MAC of `ip` across the three neighbor-table sources, in
/// the resolver's order: structured command text, raw table file text,
/// legacy command text.  Absence is a normal outcome, not an error.
pub open spec fn spec_lookup(ip: u32, neigh: Seq<char>, table: Seq<char>, legacy: Seq<char>) -> Option<Seq<u8>> {
    match spec_first_mac(spec_neigh_entries(neigh), ip) {
        Some(m) => Some(m),
        None => match spec_first_mac(spec_proc_arp_entries(table), ip) {
            Some(m) => Some(m),
            None => spec_arp_cmd_mac(legacy, ip),
        },
    }
}

/// Look up the MAC of `ip` in the text of the three neighbor-table
/// sources.
pub fn lookup_mac_in_tables(ip: u32, neigh: &str, table: &str, legacy: &str) -> (r: Option<
    MacAddr,
>)
    ensures
        r matches Some(m) ==> spec_lookup(ip, neigh@, table@, legacy@) == Some(m@),
        r is None ==> spec_lookup(ip, neigh@, table@, legacy@) is None,
{
    let neigh_entries = parse_ip_neigh(neigh);
    match first_mac_of(&neigh_entries, ip) {
        Some(m) => Some(m),
        None => {
            let table_entries = parse_proc_net_arp(table);
            match first_mac_of(&table_entries, ip) {
                Some(m) => Some(m),
                None => arp_cmd_mac(legacy, ip),
            }
        },
    }
}

/// The MAC token of one line of active-probe output: the first field
/// that holds a colon and has at least sixteen characters.
pub open spec fn spec_probe_token(ws: Seq<Seq<char>>) -> Option<Seq<char>>
    decreases ws.len(),
{
    if ws.len() == 0 {
        None
    } else if ws[0].contains(':') && ws[0].len() >= 16 {
        Some(ws[0])
    } else {
        spec_probe_token(ws.drop_first())
    }
}

/// The MAC of one line of active-probe output: its MAC token, when the
/// token parses.
pub open spec fn spec_probe_line(l: Seq<char>) -> Option<Seq<u8>> {
    match spec_probe_token(spec_words(l)) {
        Some(t) => spec_parse_mac(t),
        None => None,
    }
}

/// The first MAC that active-probe output yields.
pub open spec fn spec_probe_mac(s: Seq<char>) -> Option<Seq<u8>> {
    spec_first_some(spec_lines(s), |l: Seq<char>| spec_probe_line(l))
}

/// Scan active-probe output for a MAC address token.
pub fn mac_from_probe_output(output: &str) -> (r: Option<MacAddr>)
    ensures
        r matches Some(m) ==> spec_probe_mac(output@) == Some(m@),
        r is None ==> spec_probe_mac(output@) is None,
{
    let ls = lines_of(output);
    let ghost lviews = spec_lines(output@);
    let ghost f = |l: Seq<char>| spec_probe_line(l);
    let n = ls.len();
    let mut i: usize = 0;
    proof {
        assert(lviews.skip(0) =~= lviews);
    }
    while i < n
        invariant
            n == ls@.len(),
            lviews == spec_lines(output@),
            lviews == views_of(ls@),
            i <= n,
            f == (|l: Seq<char>| spec_probe_line(l)),
            spec_first_some(lviews, f) == spec_first_some(lviews.skip(i as int), f),
        decreases n - i,
    {
        let line: &String = &ls[i];
        proof {
            assert(line@ == lviews[i as int]);
            assert(lviews.skip(i as int)[0] == lviews[i as int]);
            assert(lviews.skip(i as int).drop_first() =~= lviews.skip(i + 1));
        }
        match probe_token_of_line(line.as_str()) {
            Some(tok) => {
                match parse_mac(tok.as_str()) {
                    Some(m) => {
                        return Some(m);
                    },
                    None => {},
                }
            },
            None => {},
        }
        i = i + 1;
    }
    proof {
        assert(lviews.skip(n as int) =~= Seq::<Seq<char>>::empty());
    }
    None
}

/// Find the MAC token of one probe-output line.
fn probe_token_of_line(l: &str) -> (r: Option<String>)
    ensures
        r matches Some(t) ==> spec_probe_token(spec_words(l@)) == Some(t@),
        r is None ==> spec_probe_token(spec_words(l@)) is None,
{
    let ws = words(l);
    let ghost wviews = spec_words(l@);
    let n = ws.len();
    let mut i: usize = 0;
    proof {
        assert(wviews.skip(0) =~= wviews);
    }
    while i < n
        invariant
            n == ws@.len(),
            wviews == spec_words(l@),
            wviews == views_of(ws@),
            i <= n,
            spec_probe_token(wviews) == spec_probe_token(wviews.skip(i as int)),
        decreases n - i,
    {
        let tok: &String = &ws[i];
        proof {
            assert(tok@ == wviews[i as int]);
            assert(wviews.skip(i as int)[0] == wviews[i as int]);
            assert(wviews.skip(i as int).drop_first() =~= wviews.skip(i + 1));
        }
        let has_colon = contains_char(tok.as_str(), ':');
        if has_colon && tok.unicode_len() >= 16 {
            return Some(clone_str(tok));
        }
        i = i + 1;
    }
    proof {
        assert(wviews.skip(n as int) =~= Seq::<Seq<char>>::empty());
    }
    None
}

/// What the resolver asks the surrounding program to do next.  The
/// chain is a strict ordered fallback: neighbor tables first, then —
/// only when the active probe is enabled — the active-resolution tool,
/// then one reachability trigger followed by a single re-query of the
/// tables.  Absence of a MAC is a normal outcome, never an error.
#[derive(Debug, Clone, Copy)]
pub enum ResolveStep {
    /// Query the neighbor-table sources and report what they printed.
    LookupTables,
    /// Run the active-resolution tool, bounded by the caller's
    /// timeout, and report its output; report nothing when the tool is
    /// missing or failed.
    RunProbe,
    /// Issue one best-effort reachability probe, query the tables
    /// again, and report the new lookup result.
    TriggerAndRelookup,
    /// The chain is finished with this result.
    Done(Option<MacAddr>),
}

/// Where resolution begins: with the neighbor tables.
pub fn resolver_start() -> (s: ResolveStep)
    ensures
        s == ResolveStep::LookupTables,
{
    ResolveStep::LookupTables
}

/// Advance the chain after the table lookup: a hit finishes the chain;
/// a miss finishes it with nothing when the active probe is disabled,
/// and otherwise moves on to the probe.
pub fn resolver_after_lookup(found: Option<MacAddr>, probe_enabled: bool) -> (s: ResolveStep)
    ensures
        found matches Some(m) ==> s == ResolveStep::Done(Some(m)),
        found is None && !probe_enabled ==> s == ResolveStep::Done(None::<MacAddr>),
        found is None && probe_enabled ==> s == ResolveStep::RunProbe,
{
    match found {
        Some(m) => ResolveStep::Done(Some(m)),
        None => {
            if probe_enabled {
                ResolveStep::RunProbe
            } else {
                ResolveStep::Done(None)
            }
        },
    }
}

/// Advance the chain after the active probe: when its output yields a
/// MAC the chain finishes with it; otherwise — including a missing or
/// failed tool, which is swallowed, never propagated — one
/// reachability trigger and a re-query follow.
pub fn resolver_after_probe(output: Option<&str>) -> (s: ResolveStep)
    ensures
        output matches Some(o) ==> (spec_probe_mac(o@) matches Some(m) ==> s matches
            ResolveStep::Done(f) && f matches Some(mm) && mm@ == m),
        output matches Some(o) && spec_probe_mac(o@) is None ==> s
            == ResolveStep::TriggerAndRelookup,
        output is None ==> s == ResolveStep::TriggerAndRelookup,
{
    match output {
        Some(o) => {
            match mac_from_probe_output(o) {
                Some(m) => ResolveStep::Done(Some(m)),
                None => ResolveStep::TriggerAndRelookup,
            }
        },
        None => ResolveStep::TriggerAndRelookup,
    }
}

/// Finish the chain after the re-query: its result is the resolver's
/// result, found or not.
pub fn resolver_after_relookup(found: Option<MacAddr>) -> (s: ResolveStep)
    ensures
        s == ResolveStep::Done(found),
{
    ResolveStep::Done(found)
}

/// Resolving the same host twice against the same neighbor-table text,
/// with the active probe disabled, yields the same link address both
/// times: the lookup result is a function of the host and the tables
/// alone.
pub proof fn lemma_resolution_idempotent(
    ip: u32,
    neigh: Seq<char>,
    table: Seq<char>,
    legacy: Seq<char>,
    r1: Option<Seq<u8>>,
    r2: Option<Seq<u8>>,
)
    requires
        r1 == spec_lookup(ip, neigh, table, legacy),
        r2 == spec_lookup(ip, neigh, table, legacy),
    ensures
        r1 == r2,
{
}

/// Character membership test.
fn contains_char(s: &str, c: char) -> (r: bool)
    ensures
        r == s@.contains(c),
{
    let n = s.unicode_len();
    let mut i: usize = 0;
    while i < n
        invariant
            n == s@.len(),
            i <= n,
            forall|j: int| 0 <= j < i ==> s@[j] != c,
        decreases n - i,
    {
        if s.get_char(i) == c {
            return true;
        }
        i = i + 1;
    }
    proof {
        if s@.contains(c) {
            let w = choose|w: int| 0 <= w < s@.len() && s@[w] == c;
            assert(s@[w] != c);
        }
    }
    false
}

} // verus!
