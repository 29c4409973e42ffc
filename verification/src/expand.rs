//! Address-range expansion and the sweep coordinator's core.
//!
//! A CIDR range is expanded into its usable host addresses; a host set
//! is partitioned into per-worker chunks with no address lost or
//! duplicated; and a whole sweep resolves every host against
//! neighbor-table text, yielding exactly one result per host.

use vstd::prelude::*;
use vstd::arithmetic::power2::{pow2, lemma2_to64, lemma_pow2_adds, lemma_pow2_strictly_increases};

use crate::neighbors::{spec_lookup, lookup_mac_in_tables};
use crate::MacAddr;

verus! {

/// Errors of the sweep.  A malformed range is the only fatal input
/// error; an unreachable host is a normal outcome.
#[derive(Debug, Clone, Copy, PartialEq, Eq, Structural)]
pub enum ScanError {
    /// The range text is not a well-formed CIDR range.
    InvalidRange,
}

/// What a CIDR range string denotes: the given address and the prefix
/// length, or nothing when malformed.
pub uninterp spec fn parsed_cidr(s: Seq<char>) -> Option<(u32, u8)>;

/// Relies on ipnetwork's IPv4 network parser: it accepts
/// `"a.b.c.d/n"` with `n` at most 32, `"a.b.c.d"` alone (prefix 32),
/// and a dotted netmask in place of `n`, and returns the given address
/// with the prefix length; anything else is rejected.
#[verifier::external_body]
fn parse_cidr(s: &str) -> (r: Option<(u32, u8)>)
    ensures
        r == parsed_cidr(s@),
        r matches Some(t) ==> t.1 <= 32,
{
    match s.parse::<ipnetwork::Ipv4Network>() {
        Ok(net) => Some((u32::from(net.ip()), net.prefix())),
        Err(_) => None,
    }
}

/// The size of the address block of a prefix: 2^(32 - prefix).
pub open spec fn spec_host_count(prefix: u8) -> int {
    pow2((32 - prefix) as nat) as int
}

/// The network address of the block holding `addr`: `addr` rounded
/// down to a multiple of the block size.
pub open spec fn spec_network(addr: u32, prefix: u8) -> int {
    (addr as int / spec_host_count(prefix)) * spec_host_count(prefix)
}

/// The usable host addresses of a range: the single given address for
/// a full-length prefix; nothing when the block holds no addresses
/// strictly between network and broadcast; otherwise every address
/// strictly between them, in ascending order.
pub open spec fn spec_hosts(addr: u32, prefix: u8) -> Seq<u32> {
    if prefix == 32 {
        seq![addr]
    } else if spec_host_count(prefix) <= 2 {
        Seq::empty()
    } else {
        Seq::new(
            (spec_host_count(prefix) - 2) as nat,
            |j: int| (spec_network(addr, prefix) + 1 + j) as u32,
        )
    }
}

/// Block arithmetic: the block size is at least 1, at most 2^32, and
/// the block of `addr` lies within the 32-bit space.
proof fn lemma_block_bounds(addr: u32, prefix: u8)
    requires
        prefix < 32,
    ensures
        2 <= spec_host_count(prefix) <= 0x1_0000_0000,
        0 <= spec_network(addr, prefix) <= addr,
        spec_network(addr, prefix) + spec_host_count(prefix) <= 0x1_0000_0000,
{
    let k = (32 - prefix) as nat;
    let hc = spec_host_count(prefix);
    lemma2_to64();
    if k < 32 {
        lemma_pow2_strictly_increases(k, 32);
    }
    if 1 < k {
        lemma_pow2_strictly_increases(1, k);
    }
    assert(hc >= 2);
    lemma_pow2_adds(k, (32 - k) as nat);
    let p = pow2((32 - k) as nat) as int;
    assert(hc * p == 0x1_0000_0000);
    let q = addr as int / hc;
    vstd::arithmetic::div_mod::lemma_fundamental_div_mod(addr as int, hc);
    vstd::arithmetic::div_mod::lemma_mod_bound(addr as int, hc);
    assert(q * hc == addr - (addr as int % hc));
    assert(0 <= q * hc <= addr);
    assert(q >= 0) by (nonlinear_arith)
        requires
            q * hc >= 0 && hc > 0,
    ;
    assert(q * hc < p * hc) by {
        assert(addr < 0x1_0000_0000);
        assert(p * hc == 0x1_0000_0000) by (nonlinear_arith)
            requires
                hc * p == 0x1_0000_0000,
        ;
    }
    assert(q < p) by (nonlinear_arith)
        requires
            q * hc < p * hc && hc > 0,
    ;
    assert((q + 1) * hc <= p * hc) by (nonlinear_arith)
        requires
            q < p && hc > 0,
    ;
    assert((q + 1) * hc == q * hc + hc) by (nonlinear_arith);
    assert(p * hc == 0x1_0000_0000) by (nonlinear_arith)
        requires
            hc * p == 0x1_0000_0000,
    ;
}

/// The expander's output length: one address for a full-length prefix,
/// and otherwise the block size less its network and broadcast
/// addresses, floored at zero — 2^(32 - prefix) - 2 for any prefix of
/// at most 30, and zero for the point-to-point prefix 31.
pub proof fn lemma_expander_output_length(addr: u32, prefix: u8)
    requires
        prefix <= 32,
    ensures
        prefix == 32 ==> spec_hosts(addr, prefix).len() == 1,
        prefix < 32 ==> spec_hosts(addr, prefix).len() == (if spec_host_count(prefix) - 2 > 0 {
            spec_host_count(prefix) - 2
        } else {
            0
        }),
{
    if prefix < 32 {
        lemma_block_bounds(addr, prefix);
    }
}

/// Expand one address block into its usable host addresses.
pub fn expand_hosts(addr: u32, prefix: u8) -> (r: Vec<u32>)
    requires
        prefix <= 32,
    ensures
        r@ == spec_hosts(addr, prefix),
{
    if prefix == 32 {
        let mut one: Vec<u32> = Vec::new();
        one.push(addr);
        proof {
            lemma2_to64();
            assert(one@ =~= spec_hosts(addr, prefix));
        }
        return one;
    }
    let k: u64 = (32 - prefix) as u64;
    proof {
        lemma2_to64();
        lemma_block_bounds(addr, prefix);
        vstd::bits::lemma_u64_shl_is_mul(1u64, k);
    }
    let hc: u64 = 1u64 << k;
    if hc <= 2 {
        let empty: Vec<u32> = Vec::new();
        proof {
            assert(empty@ =~= spec_hosts(addr, prefix));
        }
        return empty;
    }
    let network: u64 = ((addr as u64) / hc) * hc;
    proof {
        assert(network == spec_network(addr, prefix));
    }
    let count: u64 = hc - 2;
    let mut out: Vec<u32> = Vec::new();
    let mut j: u64 = 0;
    while j < count
        invariant
            prefix < 32,
            hc == spec_host_count(prefix),
            count == hc - 2,
            network == spec_network(addr, prefix),
            network + hc <= 0x1_0000_0000,
            j <= count,
            out@.len() == j,
            forall|t: int| 0 <= t < j ==> out@[t] == spec_network(addr, prefix) + 1 + t,
        decreases count - j,
    {
        out.push((network + 1 + j) as u32);
        j = j + 1;
    }
    proof {
        assert(out@ =~= spec_hosts(addr, prefix));
    }
    out
}

/// Expand a CIDR range string into its usable host addresses.
/// A malformed range is fatal for the whole sweep.
pub fn expand_cidr(cidr: &str) -> (r: Result<Vec<u32>, ScanError>)
    ensures
        r matches Ok(v) ==> parsed_cidr(cidr@) matches Some(t) && v@ == spec_hosts(t.0, t.1),
        r is Err ==> parsed_cidr(cidr@) is None && r == Err::<Vec<u32>, ScanError>(
            ScanError::InvalidRange,
        ),
{
    match parse_cidr(cidr) {
        Some((addr, prefix)) => Ok(expand_hosts(addr, prefix)),
        None => Err(ScanError::InvalidRange),
    }
}

/// Views of a vector of chunks.
pub open spec fn chunk_views(v: Seq<Vec<u32>>) -> Seq<Seq<u32>> {
    v.map_values(|c: Vec<u32>| c@)
}

/// The chunk size of the coordinator: host count over worker count,
/// rounded up (workers coerced up to one).
pub open spec fn spec_chunk_size(len: int, workers: int) -> int {
    let w = if workers >= 1 {
        workers
    } else {
        1int
    };
    len / w + if len % w != 0 {
        1int
    } else {
        0int
    }
}

/// Partition the ordered host sequence into per-worker chunks of the
/// coordinator's chunk size.  Concatenating the chunks gives back the
/// host sequence exactly: no address is lost or duplicated.  At most
/// `workers` chunks are produced (at least one worker), each
/// non-empty, and every chunk except the last is full.
pub fn partition_chunks(hosts: &Vec<u32>, workers: usize) -> (r: Vec<Vec<u32>>)
    ensures
        chunk_views(r@).flatten() == hosts@,
        hosts@.len() == 0 ==> r@.len() == 0,
        hosts@.len() > 0 ==> 1 <= r@.len() <= (if workers >= 1 {
            workers as int
        } else {
            1
        }),
        forall|i: int| 0 <= i < r@.len() ==> #[trigger] r@[i]@.len() >= 1,
        forall|i: int|
            0 <= i < r@.len() - 1 ==> #[trigger] r@[i]@.len() == spec_chunk_size(
                hosts@.len() as int,
                workers as int,
            ),
{
    broadcast use Seq::lemma_flatten_push;

    let len = hosts.len();
    let w: usize = if workers >= 1 {
        workers
    } else {
        1
    };
    let mut r: Vec<Vec<u32>> = Vec::new();
    if len == 0 {
        proof {
            assert(chunk_views(r@).flatten() =~= hosts@);
        }
        return r;
    }
    let q = len / w;
    proof {
        if len % w != 0 {
            assert(w >= 2) by {
                if w == 1 {
                    assert(len as int % 1 == 0);
                }
            }
            assert(q < len) by (nonlinear_arith)
                requires
                    q == len as int / w as int && w as int >= 2 && len as int >= 1,
            ;
        }
    }
    let cs: usize = if len % w != 0 {
        q + 1
    } else {
        q
    };
    proof {
        assert(cs >= 1) by (nonlinear_arith)
            requires
                cs == len as int / w as int + (if len as int % w as int != 0 {
                    1int
                } else {
                    0int
                }) && len as int > 0 && w as int >= 1,
        ;
        assert(cs * (w as int) >= len) by (nonlinear_arith)
            requires
                cs == len as int / w as int + (if len as int % w as int != 0 {
                    1int
                } else {
                    0int
                }) && len as int > 0 && w as int >= 1,
        ;
    }
    let mut pos: usize = 0;
    while pos < len
        invariant
            len == hosts@.len(),
            w >= 1,
            cs >= 1,
            cs == spec_chunk_size(len as int, workers as int),
            cs * (w as int) >= len,
            pos <= len,
            chunk_views(r@).flatten() == hosts@.take(pos as int),
            pos == len || pos == r@.len() * cs,
            r@.len() == 0 ==> pos == 0,
            r@.len() >= 1 ==> pos > (r@.len() - 1) * cs,
            forall|i: int| 0 <= i < r@.len() ==> 1 <= #[trigger] r@[i]@.len() <= cs,
            forall|i: int| 0 <= i < r@.len() - 1 ==> #[trigger] r@[i]@.len() == cs,
            r@.len() >= 1 ==> (r@[r@.len() - 1]@.len() == cs || pos == len),
        decreases len - pos,
    {
        let remaining = len - pos;
        let s: usize = if cs < remaining {
            cs
        } else {
            remaining
        };
        let mut chunk: Vec<u32> = Vec::new();
        let mut t: usize = 0;
        while t < s
            invariant
                pos + s <= len,
                len == hosts@.len(),
                t <= s,
                chunk@.len() == t,
                forall|u: int| 0 <= u < t ==> chunk@[u] == hosts@[pos + u],
            decreases s - t,
        {
            chunk.push(hosts[pos + t]);
            t = t + 1;
        }
        proof {
            assert(chunk@ =~= hosts@.subrange(pos as int, pos + s));
        }
        let ghost pre = r@;
        let ghost old_pos = pos as int;
        proof {
            assert(old_pos == pre.len() * cs);
        }
        r.push(chunk);
        pos = pos + s;
        proof {
            assert(chunk_views(r@) =~= chunk_views(pre).push(hosts@.subrange(
                old_pos,
                old_pos + s,
            )));
            chunk_views(pre).lemma_flatten_push(hosts@.subrange(old_pos, old_pos + s));
            assert(chunk_views(r@).flatten() == chunk_views(pre).flatten() + hosts@.subrange(
                old_pos,
                old_pos + s,
            ));
            assert(hosts@.take(old_pos + s) =~= hosts@.take(old_pos) + hosts@.subrange(
                old_pos,
                old_pos + s,
            ));
            if s < cs {
                assert(pos == len);
            }
            assert(r@.len() - 1 == pre.len());
            assert((r@.len() - 1) * cs == pre.len() * cs);
            assert(pos > (r@.len() - 1) * cs);
            if s == cs {
                assert(r@.len() * cs == pre.len() * cs + cs) by (nonlinear_arith)
                    requires
                        r@.len() == pre.len() + 1,
                ;
                assert(pos == r@.len() * cs);
            }
            assert(forall|i: int| 0 <= i < pre.len() ==> r@[i] == pre[i]);
        }
    }
    proof {
        assert(hosts@.take(len as int) =~= hosts@);
        assert(r@.len() >= 1);
        assert(r@.len() <= w as int) by {
            if r@.len() > w as int {
                assert((r@.len() - 1) * cs >= (w as int) * cs) by (nonlinear_arith)
                    requires
                        r@.len() - 1 >= w as int && cs >= 1,
                ;
                assert((w as int) * cs >= len) by (nonlinear_arith)
                    requires
                        cs * (w as int) >= len,
                ;
                assert(pos > (r@.len() - 1) * cs);
                assert(false);
            }
        }
    }
    r
}

/// Resolve every host of `hosts` against the given neighbor-table
/// text, handing the hosts out chunk by chunk as the coordinator
/// would.  Exactly one result is produced per host, in address order:
/// none skipped, none duplicated, whatever the worker count.
pub fn sweep_with_tables(
    hosts: &Vec<u32>,
    workers: usize,
    neigh: &str,
    table: &str,
    legacy: &str,
) -> (r: Vec<(u32, Option<MacAddr>)>)
    ensures
        r@.len() == hosts@.len(),
        forall|i: int| 0 <= i < r@.len() ==> (#[trigger] r@[i]).0 == hosts@[i],
        forall|i: int|
            0 <= i < r@.len() ==> ((#[trigger] r@[i]).1 matches Some(m) ==> spec_lookup(
                hosts@[i],
                neigh@,
                table@,
                legacy@,
            ) == Some(m@)) && (r@[i].1 is None ==> spec_lookup(
                hosts@[i],
                neigh@,
                table@,
                legacy@,
            ) is None),
{
    broadcast use Seq::lemma_flatten_push;

    let chunks = partition_chunks(hosts, workers);
    let ghost cvs = chunk_views(chunks@);
    let nchunks = chunks.len();
    let mut r: Vec<(u32, Option<MacAddr>)> = Vec::new();
    let mut ci: usize = 0;
    proof {
        assert(cvs.take(0) =~= Seq::<Seq<u32>>::empty());
    }
    while ci < nchunks
        invariant
            nchunks == chunks@.len(),
            cvs == chunk_views(chunks@),
            cvs.flatten() == hosts@,
            ci <= nchunks,
            r@.len() == cvs.take(ci as int).flatten().len(),
            cvs.take(ci as int).flatten() == hosts@.take(r@.len() as int),
            forall|i: int| 0 <= i < r@.len() ==> (#[trigger] r@[i]).0 == hosts@[i],
            forall|i: int|
                0 <= i < r@.len() ==> ((#[trigger] r@[i]).1 matches Some(m) ==> spec_lookup(
                    hosts@[i],
                    neigh@,
                    table@,
                    legacy@,
                ) == Some(m@)) && (r@[i].1 is None ==> spec_lookup(
                    hosts@[i],
                    neigh@,
                    table@,
                    legacy@,
                ) is None),
        decreases nchunks - ci,
    {
        let chunk: &Vec<u32> = &chunks[ci];
        proof {
            assert(chunk@ == cvs[ci as int]);
            assert(cvs.take(ci + 1) =~= cvs.take(ci as int).push(cvs[ci as int]));
            cvs.take(ci as int).lemma_flatten_push(cvs[ci as int]);
            assert(cvs.take(ci + 1).flatten() == cvs.take(ci as int).flatten() + cvs[ci as int]);
            vstd::seq_lib::lemma_flatten_concat(cvs.take(ci + 1), cvs.skip(ci + 1));
            assert(cvs.take(ci + 1) + cvs.skip(ci + 1) =~= cvs);
            assert(cvs.take(ci + 1).flatten() + cvs.skip(ci + 1).flatten() =~= hosts@);
            assert(cvs.take(ci + 1).flatten() == hosts@.take(cvs.take(ci + 1).flatten().len() as int));
            assert(cvs.take(ci + 1).flatten().len() + cvs.skip(ci + 1).flatten().len()
                == hosts@.len());
            assert(cvs.take(ci as int).flatten().len() + cvs[ci as int].len() <= hosts@.len());
        }
        let clen = chunk.len();
        let mut cj: usize = 0;
        while cj < clen
            invariant
                clen == chunk@.len(),
                cj <= clen,
                cvs.take(ci as int).flatten() + chunk@ == hosts@.take(
                    cvs.take(ci as int).flatten().len() + clen,
                ),
                r@.len() == cvs.take(ci as int).flatten().len() + cj,
                cvs.take(ci as int).flatten().len() + clen <= hosts@.len(),
                r@.len() <= hosts@.len(),
                forall|i: int| 0 <= i < r@.len() ==> (#[trigger] r@[i]).0 == hosts@[i],
                forall|i: int|
                    0 <= i < r@.len() ==> ((#[trigger] r@[i]).1 matches Some(m) ==> spec_lookup(
                        hosts@[i],
                        neigh@,
                        table@,
                        legacy@,
                    ) == Some(m@)) && (r@[i].1 is None ==> spec_lookup(
                        hosts@[i],
                        neigh@,
                        table@,
                        legacy@,
                    ) is None),
            decreases clen - cj,
        {
            let ip = chunk[cj];
            proof {
                let base = cvs.take(ci as int).flatten().len() as int;
                assert(hosts@.take(base + clen)[base + cj] == chunk@[cj as int]);
                assert(hosts@[base + cj] == chunk@[cj as int]);
            }
            let mac = lookup_mac_in_tables(ip, neigh, table, legacy);
            r.push((ip, mac));
            cj = cj + 1;
        }
        ci = ci + 1;
    }
    proof {
        assert(cvs.take(nchunks as int) =~= cvs);
        assert(hosts@.take(hosts@.len() as int) =~= hosts@);
    }
    r
}

/// Run a whole sweep from a CIDR range string and the text of the
/// three neighbor-table sources: expand the range, partition it over
/// the workers, and resolve every host.  The aggregate holds exactly
/// one result per usable host address, none lost, none duplicated.
pub fn scan_cidr_with_tables(
    cidr: &str,
    workers: usize,
    neigh: &str,
    table: &str,
    legacy: &str,
) -> (r: Result<Vec<(u32, Option<MacAddr>)>, ScanError>)
    ensures
        r matches Ok(v) ==> parsed_cidr(cidr@) matches Some(t) && v@.len() == spec_hosts(
            t.0,
            t.1,
        ).len() && (forall|i: int|
            0 <= i < v@.len() ==> (#[trigger] v@[i]).0 == spec_hosts(t.0, t.1)[i]),
        r is Err ==> parsed_cidr(cidr@) is None && r == Err::<
            Vec<(u32, Option<MacAddr>)>,
            ScanError,
        >(ScanError::InvalidRange),
{
    let hosts = match expand_cidr(cidr) {
        Ok(hosts) => hosts,
        Err(e) => {
            return Err(e);
        },
    };
    Ok(sweep_with_tables(&hosts, workers, neigh, table, legacy))
}

} // verus!
