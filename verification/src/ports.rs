//! Candidate port lists: the builtin presets and the forgiving port
//! list parser.

use vstd::prelude::*;

use crate::strutil::{
    spec_split, spec_trim, spec_parse_i64, Sep, split_sep, trim_str, parse_i64_dec,
};

verus! {

/// The builtin thorough port list: every port from 1 through 1024, in
/// order.
pub fn builtin_ports() -> (r: Vec<u16>)
    ensures
        r@.len() == 1024,
        forall|i: int| 0 <= i < 1024 ==> r@[i] == i + 1,
{
    let mut r: Vec<u16> = Vec::new();
    let mut p: u16 = 1;
    while p <= 1024
        invariant
            1 <= p <= 1025,
            r@.len() == p - 1,
            forall|i: int| 0 <= i < r@.len() ==> r@[i] == i + 1,
        decreases 1025 - p,
    {
        r.push(p);
        p = p + 1;
    }
    r
}

/// The fast preset: around a hundred commonly probed ports.
pub fn fast_ports() -> (r: Vec<u16>)
    ensures
        r@ == spec_fast_ports(),
{
    let r: Vec<u16> = vec![
        20, 21, 22, 23, 25, 37, 53, 67, 68, 69, 79, 80, 81, 88, 103, 110, 111, 113, 119, 123, 135,
        137, 138, 139, 143, 161, 162, 179, 199, 389, 443, 445, 465, 514, 515, 540, 554, 587, 593,
        631, 636, 666, 989, 990, 993, 995, 1025, 1080, 1194, 1433, 1434, 1521, 1720, 1723, 1863,
        1900, 2049, 2082, 2083, 2086, 2087, 2095, 2096, 2121, 2222, 2302, 2483, 2484, 25565, 2601,
        2717, 3000, 3128, 3306, 3389, 3478, 3690, 3702, 3986, 4000, 4500, 4899, 5000, 5001, 5060,
        5061, 5222, 5232, 5432, 5555, 5601, 5900, 5984, 6379, 6667, 6881, 6969, 7000, 7199, 8000,
        8008, 8080, 8081, 8443, 8888, 9000, 9100, 9200, 9300, 10000, 27017,
    ];
    proof {
        assert(r@ =~= spec_fast_ports());
    }
    r
}

/// The ports of the fast preset.
pub open spec fn spec_fast_ports() -> Seq<u16> {
    seq![
        20u16, 21, 22, 23, 25, 37, 53, 67, 68, 69, 79, 80, 81, 88, 103, 110, 111, 113, 119, 123,
        135, 137, 138, 139, 143, 161, 162, 179, 199, 389, 443, 445, 465, 514, 515, 540, 554, 587,
        593, 631, 636, 666, 989, 990, 993, 995, 1025, 1080, 1194, 1433, 1434, 1521, 1720, 1723,
        1863, 1900, 2049, 2082, 2083, 2086, 2087, 2095, 2096, 2121, 2222, 2302, 2483, 2484, 25565,
        2601, 2717, 3000, 3128, 3306, 3389, 3478, 3690, 3702, 3986, 4000, 4500, 4899, 5000, 5001,
        5060, 5061, 5222, 5232, 5432, 5555, 5601, 5900, 5984, 6379, 6667, 6881, 6969, 7000, 7199,
        8000, 8008, 8080, 8081, 8443, 8888, 9000, 9100, 9200, 9300, 10000, 27017,
    ]
}

/// The first position of `c` in `s`.
pub open spec fn spec_find_char(s: Seq<char>, c: char) -> Option<int>
    decreases s.len(),
{
    if s.len() == 0 {
        None
    } else if s[0] == c {
        Some(0int)
    } else {
        match spec_find_char(s.drop_first(), c) {
            Some(i) => Some(i + 1),
            None => None,
        }
    }
}

/// A position whose earlier characters all differ from `c` and which
/// holds `c` is the first position of `c`.
proof fn lemma_find_char_at(s: Seq<char>, c: char, i: int)
    requires
        0 <= i < s.len(),
        s[i] == c,
        forall|j: int| 0 <= j < i ==> s[j] != c,
    ensures
        spec_find_char(s, c) == Some(i),
    decreases i,
{
    if i > 0 {
        assert(forall|j: int| 0 <= j < i - 1 ==> s.drop_first()[j] != c);
        lemma_find_char_at(s.drop_first(), c, i - 1);
    }
}

/// A string without `c` has no first position of `c`.
proof fn lemma_find_char_none(s: Seq<char>, c: char)
    requires
        forall|j: int| 0 <= j < s.len() ==> s[j] != c,
    ensures
        spec_find_char(s, c) is None,
    decreases s.len(),
{
    if s.len() > 0 {
        assert(forall|j: int| 0 <= j < s.drop_first().len() ==> s.drop_first()[j] != c);
        lemma_find_char_none(s.drop_first(), c);
    }
}

/// Find the first position of `c` in `s`.
pub fn find_char(s: &str, c: char) -> (r: Option<usize>)
    ensures
        r matches Some(i) ==> spec_find_char(s@, c) == Some(i as int) && i < s@.len() && s@[i as int] == c,
        r is None ==> spec_find_char(s@, c) is None,
{
    let n = s.unicode_len();
    let mut i: usize = 0;
    while i < n
        invariant
            n == s@.len(),
            i <= n,
            forall|j: int| 0 <= j < i ==> s@[j] != c,
        decreases n - i,
    {
        if s.get_char(i) == c {
            proof {
                lemma_find_char_at(s@, c, i as int);
            }
            return Some(i);
        }
        i = i + 1;
    }
    proof {
        lemma_find_char_none(s@, c);
    }
    None
}

/// A port bound clamped into the valid range 1..=65535.
pub open spec fn spec_clamp_port(v: int) -> int {
    if v < 1 {
        1
    } else if v > 65535 {
        65535
    } else {
        v
    }
}

/// The ports one comma-separated token contributes.  A trimmed empty
/// token contributes nothing.  A token with a dash is a range: both
/// bounds must parse as integers; they are clamped to 1..=65535 and
/// taken in either order.  A plain token must parse as an integer; a
/// value below 1 is dropped and one above 65535 is clamped.  Anything
/// unparsable contributes nothing.
pub open spec fn spec_token_ports(raw: Seq<char>) -> Set<u16> {
    let t = spec_trim(raw);
    if t.len() == 0 {
        Set::empty()
    } else {
        match spec_find_char(t, '-') {
            Some(idx) => {
                let a = spec_trim(t.take(idx));
                let b = spec_trim(t.skip(idx + 1));
                match (spec_parse_i64(a), spec_parse_i64(b)) {
                    (Some(x), Some(y)) => {
                        let lo = if spec_clamp_port(x) <= spec_clamp_port(y) {
                            spec_clamp_port(x)
                        } else {
                            spec_clamp_port(y)
                        };
                        let hi = if spec_clamp_port(x) <= spec_clamp_port(y) {
                            spec_clamp_port(y)
                        } else {
                            spec_clamp_port(x)
                        };
                        Set::new(|p: u16| lo <= p <= hi)
                    },
                    _ => Set::empty(),
                }
            },
            None => match spec_parse_i64(t) {
                Some(v) => if v < 1 {
                    Set::empty()
                } else {
                    Set::new(|p: u16| p == spec_clamp_port(v))
                },
                None => Set::empty(),
            },
        }
    }
}

/// The ports contributed by a sequence of tokens.
pub open spec fn spec_tokens_ports(ts: Seq<Seq<char>>) -> Set<u16>
    decreases ts.len(),
{
    if ts.len() == 0 {
        Set::empty()
    } else {
        spec_tokens_ports(ts.drop_last()).union(spec_token_ports(ts.last()))
    }
}

/// The ports a port-list string denotes: the union over its
/// comma-separated tokens.
pub open spec fn spec_port_set(s: Seq<char>) -> Set<u16> {
    spec_tokens_ports(spec_split(s, Sep::Exact(',')))
}

/// Parse a port list such as `"22,80,443,8000-8100"`.  The parser is
/// forgiving: invalid tokens are skipped, out-of-range values clamped
/// to 1..=65535, range bounds accepted in either order.  The result
/// lists each denoted port exactly once, in ascending order; when no
/// valid port occurs it is empty.
pub fn parse_port_list(s: &str) -> (r: Vec<u16>)
    ensures
        forall|i: int, j: int| 0 <= i < j < r@.len() ==> r@[i] < r@[j],
        forall|p: u16| #[trigger] r@.contains(p) <==> spec_port_set(s@).contains(p),
{
    let pieces = split_sep(s, Sep::Exact(','));
    let ghost pviews = spec_split(s@, Sep::Exact(','));
    let npieces = pieces.len();
    let mut seen: Vec<bool> = vec![false; 65536];
    let mut i: usize = 0;
    proof {
        assert(pviews.take(0) =~= Seq::<Seq<char>>::empty());
    }
    while i < npieces
        invariant
            npieces == pieces@.len(),
            pviews == spec_split(s@, Sep::Exact(',')),
            pviews == crate::strutil::views_of(pieces@),
            i <= npieces,
            seen@.len() == 65536,
            forall|q: u16| seen@[q as int] <==> spec_tokens_ports(pviews.take(i as int)).contains(
                q,
            ),
        decreases npieces - i,
    {
        let ghost pre_seen = seen@;
        let piece: &String = &pieces[i];
        proof {
            assert(piece@ == pviews[i as int]);
            assert(pviews.take(i + 1).drop_last() =~= pviews.take(i as int));
            assert(pviews.take(i + 1).last() == pviews[i as int]);
        }
        let t = trim_str(piece.as_str());
        let tn = t.unicode_len();
        if tn > 0 {
            match find_char(t.as_str(), '-') {
                Some(idx) => {
                    let astr = t.as_str().substring_char(0, idx);
                    let a = trim_str(astr);
                    let bstr = t.as_str().substring_char(idx + 1, tn);
                    let b = trim_str(bstr);
                    proof {
                        assert(astr@ =~= t@.take(idx as int));
                        assert(bstr@ =~= t@.skip(idx + 1));
                    }
                    match (parse_i64_dec(a.as_str()), parse_i64_dec(b.as_str())) {
                        (Some(x), Some(y)) => {
                            let cx = clamp_port(x);
                            let cy = clamp_port(y);
                            let lo: u32 = if cx <= cy {
                                cx as u32
                            } else {
                                cy as u32
                            };
                            let hi: u32 = if cx <= cy {
                                cy as u32
                            } else {
                                cx as u32
                            };
                            let mut v: u32 = lo;
                            while v <= hi
                                invariant
                                    1 <= lo <= hi <= 65535,
                                    lo <= v <= hi + 1,
                                    seen@.len() == 65536,
                                    pre_seen.len() == 65536,
                                    forall|q: u16|
                                        seen@[q as int] <==> (pre_seen[q as int] || (lo <= q < v)),
                                decreases hi + 1 - v,
                            {
                                seen[v as usize] = true;
                                v = v + 1;
                            }
                            proof {
                                assert(spec_token_ports(pviews[i as int]) =~= Set::new(
                                    |p: u16| lo <= p <= hi,
                                ));
                            }
                        },
                        _ => {
                            proof {
                                assert(spec_token_ports(pviews[i as int]) =~= Set::<u16>::empty());
                            }
                        },
                    }
                },
                None => {
                    match parse_i64_dec(t.as_str()) {
                        Some(v) => {
                            if v >= 1 {
                                let p = clamp_port(v);
                                seen[p as usize] = true;
                                proof {
                                    assert(spec_token_ports(pviews[i as int]) =~= Set::new(
                                        |q: u16| q == spec_clamp_port(v as int),
                                    ));
                                }
                            } else {
                                proof {
                                    assert(spec_token_ports(pviews[i as int])
                                        =~= Set::<u16>::empty());
                                }
                            }
                        },
                        None => {
                            proof {
                                assert(spec_token_ports(pviews[i as int]) =~= Set::<u16>::empty());
                            }
                        },
                    }
                },
            }
        } else {
            proof {
                assert(spec_token_ports(pviews[i as int]) =~= Set::<u16>::empty());
            }
        }
        proof {
            assert(spec_tokens_ports(pviews.take(i + 1)) =~= spec_tokens_ports(
                pviews.take(i as int),
            ).union(spec_token_ports(pviews[i as int])));
            assert forall|q: u16| seen@[q as int] <==> spec_tokens_ports(pviews.take(i + 1)).contains(
                q,
            ) by {
                assert(pre_seen[q as int] <==> spec_tokens_ports(pviews.take(i as int)).contains(
                    q,
                ));
                assert(spec_tokens_ports(pviews.take(i + 1)).contains(q) <==> (spec_tokens_ports(
                    pviews.take(i as int),
                ).contains(q) || spec_token_ports(pviews[i as int]).contains(q)));
            }
        }
        i = i + 1;
    }
    proof {
        assert(pviews.take(npieces as int) =~= pviews);
    }
    let mut r: Vec<u16> = Vec::new();
    let mut p: usize = 0;
    while p < 65536
        invariant
            seen@.len() == 65536,
            p <= 65536,
            forall|i: int, j: int| 0 <= i < j < r@.len() ==> r@[i] < r@[j],
            forall|i: int| 0 <= i < r@.len() ==> (#[trigger] r@[i]) < p,
            forall|q: u16| q < p ==> (seen@[q as int] <==> r@.contains(q)),
            forall|q: u16| q >= p ==> !r@.contains(q),
        decreases 65536 - p,
    {
        if seen[p] {
            let ghost pre = r@;
            r.push(p as u16);
            proof {
                assert(r@.last() == p as u16);
                assert(forall|i: int| 0 <= i < pre.len() ==> r@[i] == pre[i]);
                assert forall|q: u16| q < p + 1 implies (seen@[q as int] <==> r@.contains(q)) by {
                    if q == p {
                        assert(r@[r@.len() - 1] == q);
                        assert(r@.contains(q));
                    } else {
                        if pre.contains(q) {
                            let w = choose|w: int| 0 <= w < pre.len() && pre[w] == q;
                            assert(r@[w] == q);
                        }
                        if r@.contains(q) {
                            let w = choose|w: int| 0 <= w < r@.len() && r@[w] == q;
                            assert(w < pre.len());
                        }
                    }
                }
                assert forall|q: u16| q >= p + 1 implies !r@.contains(q) by {
                    if r@.contains(q) {
                        let w = choose|w: int| 0 <= w < r@.len() && r@[w] == q;
                        assert(w < pre.len() || r@[w] == p as u16);
                    }
                }
            }
        } else {
            proof {
                assert forall|q: u16| q < p + 1 implies (seen@[q as int] <==> r@.contains(q)) by {
                    if q == p {
                        if r@.contains(q) {
                            let w = choose|w: int| 0 <= w < r@.len() && r@[w] == q;
                        }
                    }
                }
            }
        }
        p = p + 1;
    }
    r
}

/// Clamp an integer to the valid port range.
fn clamp_port(v: i64) -> (r: u16)
    ensures
        r == spec_clamp_port(v as int),
{
    if v < 1 {
        1
    } else if v > 65535 {
        65535
    } else {
        v as u16
    }
}

} // verus!
