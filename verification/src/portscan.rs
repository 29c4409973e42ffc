//! Port-scan results and banner capture.
//!
//! The connection attempts themselves are asynchronous socket work done
//! by the surrounding program; what each attempt produced is assembled
//! and normalized here, one result per attempted port, whatever came
//! back.

use vstd::prelude::*;

use crate::strutil::{spec_trim, trim_str, push_char};

verus! {

/// Structured result of probing one port.
#[derive(Debug, Clone)]
pub struct PortResult {
    /// The probed port.
    pub port: u16,
    /// The transport protocol of the probe.
    pub proto: &'static str,
    /// Whether a connection was established.
    pub open: bool,
    /// The normalized service banner, when one was read.
    pub banner: Option<String>,
    /// Milliseconds from attempt start to connection, on success.
    pub rtt_ms: Option<u128>,
}

/// What one connection attempt came back with: a connection with an
/// optional raw banner read and its round-trip time, or no connection
/// (refused, unreachable or timed out — the expected case, not an
/// error).
#[derive(Debug, Clone)]
pub enum ProbeOutcome {
    /// The connect succeeded within its timeout.
    Connected {
        /// Bytes read within the short banner window, if any came.
        banner: Option<Vec<u8>>,
        /// Milliseconds from attempt start to connect completion.
        rtt_ms: u128,
    },
    /// The connect failed or timed out.
    NoConnect,
}

/// The characters that the bytes denote under lossy UTF-8 decoding.
pub uninterp spec fn lossy_utf8_of(b: Seq<u8>) -> Seq<char>;

/// Relies on `String::from_utf8_lossy`: the characters returned depend
/// on the bytes alone.
#[verifier::external_body]
pub fn utf8_lossy(b: &Vec<u8>) -> (r: String)
    ensures
        r@ == lossy_utf8_of(b@),
{
    String::from_utf8_lossy(b).into_owned()
}

/// True when `c` is kept by banner normalization: printable ASCII.
pub open spec fn spec_keep(c: char) -> bool {
    ' ' <= c && c <= '~'
}

/// One step of banner collapsing over `(text so far, pending space)`:
/// non-printable characters are dropped, runs of spaces become a single
/// pending space, and a pending space is written only when another
/// printable character follows it.
pub open spec fn spec_collapse_step(acc: (Seq<char>, bool), c: char) -> (Seq<char>, bool) {
    let (out, pending) = acc;
    if !spec_keep(c) {
        acc
    } else if c == ' ' {
        if out.len() > 0 {
            (out, true)
        } else {
            acc
        }
    } else if pending {
        (out + seq![' ', c], false)
    } else {
        (out.push(c), false)
    }
}

/// The collapsed text of `s`: printable ASCII only, interior
/// whitespace runs shrunk to single spaces, no leading or trailing
/// space.
pub open spec fn spec_collapsed(s: Seq<char>) -> (Seq<char>, bool)
    decreases s.len(),
{
    if s.len() == 0 {
        (Seq::<char>::empty(), false)
    } else {
        spec_collapse_step(spec_collapsed(s.drop_last()), s.last())
    }
}

/// A normalized banner: the collapsed text, cut to at most 200
/// characters.
pub open spec fn spec_normalize(s: Seq<char>) -> Seq<char> {
    let t = spec_collapsed(s).0;
    if t.len() <= 200 {
        t
    } else {
        t.take(200)
    }
}

/// Normalize a banner: keep printable ASCII only, collapse whitespace
/// runs to single spaces, trim, and cut to 200 characters.
pub fn normalize_banner(s: &str) -> (r: String)
    ensures
        r@ == spec_normalize(s@),
{
    let n = s.unicode_len();
    let mut out = String::new();
    let mut out_len: usize = 0;
    let mut pending = false;
    let mut i: usize = 0;
    proof {
        assert(s@.take(0) =~= Seq::<char>::empty());
    }
    while i < n
        invariant
            n == s@.len(),
            i <= n,
            out_len == out@.len(),
            out@.len() + (if pending {
                1int
            } else {
                0int
            }) <= i,
            out@ == spec_collapsed(s@.take(i as int)).0,
            pending == spec_collapsed(s@.take(i as int)).1,
        decreases n - i,
    {
        let c = s.get_char(i);
        proof {
            assert(s@.take(i + 1).drop_last() =~= s@.take(i as int));
            assert(s@.take(i + 1).last() == s@[i as int]);
        }
        if ' ' <= c && c <= '~' {
            if c == ' ' {
                if out_len > 0 {
                    pending = true;
                }
            } else {
                if pending {
                    push_char(&mut out, ' ');
                    push_char(&mut out, c);
                    out_len = out_len + 2;
                    pending = false;
                    proof {
                        assert(out@ =~= spec_collapsed(s@.take(i + 1)).0);
                    }
                } else {
                    push_char(&mut out, c);
                    out_len = out_len + 1;
                }
            }
        }
        i = i + 1;
    }
    proof {
        assert(s@.take(n as int) =~= s@);
    }
    if out_len > 200 {
        let cut = out.as_str().substring_char(0, 200);
        cut.to_owned()
    } else {
        out
    }
}

/// Every character that collapsing emits is printable, the text never
/// begins or ends with a space, no two spaces are adjacent, and a
/// pending space implies the text is non-empty.
proof fn lemma_collapsed_canonical(s: Seq<char>)
    ensures
        ({
            let (out, pending) = spec_collapsed(s);
            &&& forall|i: int| 0 <= i < out.len() ==> spec_keep(#[trigger] out[i])
            &&& (out.len() > 0 ==> out[0] != ' ' && out.last() != ' ')
            &&& forall|i: int| 0 < i < out.len() ==> !(#[trigger] out[i] == ' ' && out[i - 1] == ' ')
            &&& (pending ==> out.len() > 0)
        }),
    decreases s.len(),
{
    if s.len() > 0 {
        lemma_collapsed_canonical(s.drop_last());
    }
}

/// Collapsing a text that is already in collapsed shape — printable,
/// no leading space, no adjacent spaces — leaves it unchanged but for
/// one trailing space, which becomes the pending flag.
proof fn lemma_collapse_fixpoint(u: Seq<char>)
    requires
        forall|i: int| 0 <= i < u.len() ==> spec_keep(#[trigger] u[i]),
        u.len() > 0 ==> u[0] != ' ',
        forall|i: int| 0 < i < u.len() ==> !(#[trigger] u[i] == ' ' && u[i - 1] == ' '),
    ensures
        u.len() > 0 && u.last() == ' ' ==> spec_collapsed(u) == (u.drop_last(), true),
        !(u.len() > 0 && u.last() == ' ') ==> spec_collapsed(u) == (u, false),
    decreases u.len(),
{
    if u.len() == 0 {
    } else {
        let v = u.drop_last();
        let c = u.last();
        assert(forall|i: int| 0 <= i < v.len() ==> v[i] == u[i]);
        lemma_collapse_fixpoint(v);
        if c == ' ' {
            assert(u[0] != ' ');
            assert(v.len() > 0);
            assert(v.last() == u[u.len() - 2]);
            assert(!(u[u.len() - 1] == ' ' && u[u.len() - 2] == ' '));
            assert(v.last() != ' ');
            assert(spec_collapsed(v) == (v, false));
            assert(spec_collapsed(u) == (v, true));
        } else {
            if v.len() > 0 && v.last() == ' ' {
                assert(spec_collapsed(v) == (v.drop_last(), true));
                assert(v.drop_last() + seq![' ', c] =~= u);
                assert(spec_collapsed(u) == (u, false));
            } else {
                assert(spec_collapsed(v) == (v, false));
                assert(v.push(c) =~= u);
                assert(spec_collapsed(u) == (u, false));
            }
        }
    }
}

/// Normalization never yields more than 200 characters.
pub proof fn lemma_normalize_len(s: Seq<char>)
    ensures
        spec_normalize(s).len() <= 200,
{
}

/// Banner normalization is idempotent, except when the 200-character
/// cut falls just after an interior space: a normalized banner
/// normalizes to itself.
pub proof fn lemma_normalize_idempotent(s: Seq<char>)
    requires
        spec_collapsed(s).0.len() <= 200 || spec_collapsed(s).0[199] != ' ',
    ensures
        spec_normalize(spec_normalize(s)) == spec_normalize(s),
{
    let t0 = spec_collapsed(s).0;
    let t = spec_normalize(s);
    lemma_collapsed_canonical(s);
    assert(forall|i: int| 0 <= i < t.len() ==> t[i] == t0[i]);
    assert(forall|i: int| 0 <= i < t.len() ==> spec_keep(#[trigger] t[i]));
    assert(t.len() > 0 ==> t[0] != ' ');
    assert(forall|i: int| 0 < i < t.len() ==> !(#[trigger] t[i] == ' ' && t[i - 1] == ' '));
    if t.len() > 0 {
        if t0.len() <= 200 {
            assert(t == t0);
            assert(t.last() != ' ');
        } else {
            assert(t.last() == t0[199]);
            assert(t.last() != ' ');
        }
    }
    lemma_collapse_fixpoint(t);
    assert(spec_collapsed(t) == (t, false));
    assert(spec_normalize(t) == t);
}

/// The result of one TCP port probe, as the scanner reports it: the
/// port, the protocol tag, whether the connect succeeded, the
/// normalized banner when bytes were read, and the round-trip time on
/// success.
pub open spec fn spec_port_result_ok(port: u16, oc: ProbeOutcome, r: PortResult) -> bool {
    &&& r.port == port
    &&& r.proto@ == "tcp"@
    &&& (r.open <==> oc is Connected)
    &&& match oc {
        ProbeOutcome::Connected { banner, rtt_ms } => {
            &&& r.rtt_ms == Some(rtt_ms)
            &&& match banner {
                Some(b) => {
                    if b@.len() > 0 {
                        r.banner matches Some(t) && t@ == spec_normalize(lossy_utf8_of(b@))
                    } else {
                        r.banner is None
                    }
                },
                None => r.banner is None,
            }
        },
        ProbeOutcome::NoConnect => r.banner is None && r.rtt_ms is None,
    }
}

/// Build the report of one TCP port probe.
pub fn port_result_of(port: u16, oc: &ProbeOutcome) -> (r: PortResult)
    ensures
        spec_port_result_ok(port, *oc, r),
{
    match oc {
        ProbeOutcome::Connected { banner, rtt_ms } => {
            let text = match banner {
                Some(b) => {
                    if b.len() > 0 {
                        let raw = utf8_lossy(b);
                        Some(normalize_banner(raw.as_str()))
                    } else {
                        None
                    }
                },
                None => None,
            };
            PortResult { port, proto: "tcp", open: true, banner: text, rtt_ms: Some(*rtt_ms) }
        },
        ProbeOutcome::NoConnect => {
            PortResult { port, proto: "tcp", open: false, banner: None, rtt_ms: None }
        },
    }
}

/// Assemble the scan report: exactly one result per attempted port, in
/// the order attempted.  An empty attempt list yields an empty report,
/// never an error.
pub fn scan_results(outcomes: Vec<(u16, ProbeOutcome)>) -> (r: Vec<PortResult>)
    ensures
        r@.len() == outcomes@.len(),
        forall|i: int|
            0 <= i < r@.len() ==> spec_port_result_ok(
                outcomes@[i].0,
                outcomes@[i].1,
                #[trigger] r@[i],
            ),
{
    let mut r: Vec<PortResult> = Vec::new();
    let n = outcomes.len();
    let mut i: usize = 0;
    while i < n
        invariant
            n == outcomes@.len(),
            i <= n,
            r@.len() == i,
            forall|j: int|
                0 <= j < i ==> spec_port_result_ok(
                    outcomes@[j].0,
                    outcomes@[j].1,
                    #[trigger] r@[j],
                ),
        decreases n - i,
    {
        let port = outcomes[i].0;
        let result = port_result_of(port, &outcomes[i].1);
        r.push(result);
        i = i + 1;
    }
    r
}

/// The banner text of one raw TCP probe of the multi-address scanner:
/// the trimmed lossy decoding of the bytes read, when any were read.
pub open spec fn spec_tcp_banner(read: Option<Vec<u8>>) -> Option<Seq<char>> {
    match read {
        Some(b) => if b@.len() > 0 {
            Some(spec_trim(lossy_utf8_of(b@)))
        } else {
            None
        },
        None => None,
    }
}

/// Assemble the report of a one-port scan over many addresses: per
/// address, the trimmed banner when the connect succeeded and bytes
/// arrived.  An empty address list yields an empty report.
pub fn tcp_probe_results(outcomes: Vec<(u32, Option<Vec<u8>>)>) -> (r: Vec<(u32, Option<String>)>)
    ensures
        r@.len() == outcomes@.len(),
        forall|i: int| 0 <= i < r@.len() ==> (#[trigger] r@[i]).0 == outcomes@[i].0,
        forall|i: int|
            0 <= i < r@.len() ==> match spec_tcp_banner(outcomes@[i].1) {
                Some(t) => (#[trigger] r@[i]).1 matches Some(b) && b@ == t,
                None => (#[trigger] r@[i]).1 is None,
            },
{
    let mut r: Vec<(u32, Option<String>)> = Vec::new();
    let n = outcomes.len();
    let mut i: usize = 0;
    while i < n
        invariant
            n == outcomes@.len(),
            i <= n,
            r@.len() == i,
            forall|j: int| 0 <= j < i ==> (#[trigger] r@[j]).0 == outcomes@[j].0,
            forall|j: int|
                0 <= j < i ==> match spec_tcp_banner(outcomes@[j].1) {
                    Some(t) => (#[trigger] r@[j]).1 matches Some(b) && b@ == t,
                    None => (#[trigger] r@[j]).1 is None,
                },
        decreases n - i,
    {
        let ip = outcomes[i].0;
        let banner: Option<String> = match &outcomes[i].1 {
            Some(b) => {
                if b.len() > 0 {
                    let raw = utf8_lossy(b);
                    Some(trim_str(raw.as_str()))
                } else {
                    None
                }
            },
            None => None,
        };
        r.push((ip, banner));
        i = i + 1;
    }
    r
}

} // verus!
