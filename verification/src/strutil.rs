//! Verified ASCII string utilities: splitting, trimming, case mapping,
//! searching, and bounded numeric parsing and formatting.
//!
//! All contracts are stated over `Seq<char>` views.

use vstd::prelude::*;

verus! {

/// Separator classes used by the splitters.
#[derive(Clone, Copy, PartialEq, Eq, Structural)]
pub enum Sep {
    /// Split at one exact character.
    Exact(char),
    /// Split at ASCII whitespace (space, tab, carriage return, line feed).
    Ws,
    /// Split at the characters a MAC address may be delimited by (':' or '-').
    MacSep,
}

/// True when `c` is ASCII whitespace as the parsers here understand it.
pub open spec fn spec_is_ws(c: char) -> bool {
    c == ' ' || c == '\t' || c == '\r' || c == '\n'
}

/// True when `c` separates fields under the separator class `k`.
pub open spec fn spec_is_sep(k: Sep, c: char) -> bool {
    match k {
        Sep::Exact(d) => c == d,
        Sep::Ws => spec_is_ws(c),
        Sep::MacSep => c == ':' || c == '-',
    }
}

/// Executable test of `spec_is_sep`.
pub fn is_sep(k: Sep, c: char) -> (r: bool)
    ensures
        r == spec_is_sep(k, c),
{
    match k {
        Sep::Exact(d) => c == d,
        Sep::Ws => c == ' ' || c == '\t' || c == '\r' || c == '\n',
        Sep::MacSep => c == ':' || c == '-',
    }
}

/// Split `s` at every separator of class `k`, keeping empty pieces,
/// as `str::split` does.  The result always has at least one piece.
pub open spec fn spec_split(s: Seq<char>, k: Sep) -> Seq<Seq<char>>
    decreases s.len(),
{
    if s.len() == 0 {
        seq![Seq::<char>::empty()]
    } else if spec_is_sep(k, s[0]) {
        seq![Seq::<char>::empty()] + spec_split(s.drop_first(), k)
    } else {
        let rest = spec_split(s.drop_first(), k);
        seq![seq![s[0]] + rest[0]] + rest.drop_first()
    }
}

/// `spec_split` never returns an empty sequence of pieces.
pub proof fn lemma_split_len(s: Seq<char>, k: Sep)
    ensures
        spec_split(s, k).len() >= 1,
    decreases s.len(),
{
    if s.len() != 0 {
        lemma_split_len(s.drop_first(), k);
    }
}

/// A separator-free string splits into itself as the single piece.
pub proof fn lemma_split_single(w: Seq<char>, k: Sep)
    requires
        forall|i: int| 0 <= i < w.len() ==> !spec_is_sep(k, #[trigger] w[i]),
    ensures
        spec_split(w, k) == seq![w],
    decreases w.len(),
{
    if w.len() == 0 {
        assert(spec_split(w, k) =~~= seq![w]);
    } else {
        assert(forall|i: int|
            0 <= i < w.drop_first().len() ==> !spec_is_sep(k, #[trigger] w.drop_first()[i]));
        lemma_split_single(w.drop_first(), k);
        assert(seq![w[0]] + w.drop_first() =~= w);
        assert(spec_split(w, k) =~~= seq![w]);
    }
}

/// Splitting a separator-free piece, one separator, and a remainder
/// yields the piece followed by the split of the remainder.
pub proof fn lemma_split_prefix(w: Seq<char>, u: Seq<char>, k: Sep, sep: char)
    requires
        spec_is_sep(k, sep),
        forall|i: int| 0 <= i < w.len() ==> !spec_is_sep(k, #[trigger] w[i]),
    ensures
        spec_split(w + seq![sep] + u, k) == seq![w] + spec_split(u, k),
    decreases w.len(),
{
    let s = w + seq![sep] + u;
    if w.len() == 0 {
        assert(s[0] == sep);
        assert(s.drop_first() =~= u);
        assert(spec_split(s, k) =~~= seq![w] + spec_split(u, k));
    } else {
        let w1 = w.drop_first();
        assert(forall|i: int| 0 <= i < w1.len() ==> !spec_is_sep(k, #[trigger] w1[i]));
        lemma_split_prefix(w1, u, k, sep);
        lemma_split_len(u, k);
        assert(s[0] == w[0]);
        assert(!spec_is_sep(k, s[0]));
        assert(s.drop_first() =~= w1 + seq![sep] + u);
        assert(seq![s[0]] + (seq![w1] + spec_split(u, k))[0] =~= w);
        assert((seq![w1] + spec_split(u, k)).drop_first() =~= spec_split(u, k));
        assert(spec_split(s, k) =~~= seq![w] + spec_split(u, k));
    }
}

/// Trimming leaves a string with no leading or trailing whitespace
/// unchanged.
pub proof fn lemma_trim_id(s: Seq<char>)
    requires
        s.len() == 0 || (!spec_is_ws(s[0]) && !spec_is_ws(s.last())),
    ensures
        spec_trim(s) == s,
{
}

/// Views of a vector of strings.
pub open spec fn views_of(v: Seq<String>) -> Seq<Seq<char>> {
    v.map_values(|t: String| t@)
}

/// Split `s` at every separator of class `k`, keeping empty pieces.
pub fn split_sep(s: &str, k: Sep) -> (r: Vec<String>)
    ensures
        views_of(r@) == spec_split(s@, k),
{
    let n = s.unicode_len();
    let mut acc: Vec<String> = Vec::new();
    let mut cur: String = String::new();
    let mut i: usize = 0;
    proof {
        lemma_split_len(s@, k);
        assert(s@.skip(0) =~= s@);
        assert(Seq::<char>::empty() + spec_split(s@, k)[0] =~= spec_split(s@, k)[0]);
        assert(views_of(acc@) =~= spec_split(s@, k).take(0));
        assert(spec_split(s@, k).skip(1) =~= spec_split(s@, k).drop_first());
    }
    while i < n
        invariant
            n == s@.len(),
            i <= n,
            spec_split(s@, k).len() > acc@.len(),
            views_of(acc@) == spec_split(s@, k).take(acc@.len() as int),
            spec_split(s@, k)[acc@.len() as int] == cur@ + spec_split(s@.skip(i as int), k)[0],
            spec_split(s@, k).skip(acc@.len() + 1int) == spec_split(s@.skip(i as int), k).drop_first(),
        decreases n - i,
    {
        let c = s.get_char(i);
        proof {
            assert(s@.skip(i as int).len() > 0);
            assert(s@.skip(i as int)[0] == s@[i as int]);
            assert(s@.skip(i as int).drop_first() =~= s@.skip(i + 1));
            lemma_split_len(s@.skip(i + 1), k);
        }
        let ghost t = spec_split(s@, k);
        let ghost a = spec_split(s@.skip(i as int), k);
        let ghost b = spec_split(s@.skip(i + 1), k);
        if is_sep(k, c) {
            let ghost old_acc = acc@;
            let ghost old_cur = cur@;
            acc.push(cur);
            cur = String::new();
            proof {
                assert(a =~= seq![Seq::<char>::empty()] + b);
                assert(a.drop_first() =~= b);
                assert(t.skip(old_acc.len() + 1int) == b);
                assert(old_cur + a[0] =~= old_cur);
                assert(views_of(acc@) =~= t.take(acc@.len() as int));
                assert(t[acc@.len() as int] == t.skip(old_acc.len() + 1int)[0]);
                assert(t[acc@.len() as int] =~= cur@ + b[0]);
                assert(t.skip(acc@.len() + 1int) =~= t.skip(old_acc.len() + 1int).drop_first());
                assert(t.skip(acc@.len() + 1int) =~= b.drop_first());
            }
        } else {
            let ghost old_cur = cur@;
            push_char(&mut cur, c);
            proof {
                assert(a =~= seq![seq![s@[i as int]] + b[0]] + b.drop_first());
                assert(a.drop_first() =~= b.drop_first());
                assert(a[0] == seq![s@[i as int]] + b[0]);
                assert(old_cur + a[0] =~= cur@ + b[0]);
                assert(t[acc@.len() as int] =~= cur@ + b[0]);
                assert(t.skip(acc@.len() + 1int) =~= b.drop_first());
            }
        }
        i = i + 1;
    }
    proof {
        assert(s@.skip(n as int) =~= Seq::<char>::empty());
        assert(spec_split(s@.skip(n as int), k) =~= seq![Seq::<char>::empty()]);
        assert(spec_split(s@, k)[acc@.len() as int] =~= cur@);
        assert(spec_split(s@, k).skip(acc@.len() + 1int) =~= Seq::<Seq<char>>::empty());
        assert(spec_split(s@, k).len() == acc@.len() + 1);
    }
    let ghost pre_acc = acc@;
    let ghost pre_cur: String = cur;
    acc.push(cur);
    proof {
        assert(acc@ =~= pre_acc.push(pre_cur));
        assert forall|j: int| 0 <= j < acc@.len() implies views_of(acc@)[j] == spec_split(
            s@,
            k,
        )[j] by {
            if j < pre_acc.len() {
                assert(views_of(pre_acc)[j] == spec_split(s@, k).take(pre_acc.len() as int)[j]);
            }
        }
        assert(views_of(acc@) =~= spec_split(s@, k));
    }
    acc
}

/// Relies on `String::push`: appends one character at the end.
#[verifier::external_body]
pub fn push_char(s: &mut String, c: char)
    ensures
        final(s)@ == old(s)@.push(c),
{
    s.push(c);
}

/// The whitespace-separated words of `s`: the non-empty pieces of a
/// whitespace split.
pub open spec fn spec_words(s: Seq<char>) -> Seq<Seq<char>> {
    spec_split(s, Sep::Ws).filter(|p: Seq<char>| p.len() > 0)
}

/// Split `s` into whitespace-separated words, dropping empty pieces.
pub fn words(s: &str) -> (r: Vec<String>)
    ensures
        views_of(r@) == spec_words(s@),
{
    let pieces = split_sep(s, Sep::Ws);
    retain_nonempty(pieces)
}

/// Keep only the non-empty strings of `v`, in order.
pub fn retain_nonempty(v: Vec<String>) -> (r: Vec<String>)
    ensures
        views_of(r@) == views_of(v@).filter(|p: Seq<char>| p.len() > 0),
{
    broadcast use vstd::seq_lib::group_filter_ensures, Seq::lemma_filter_push;

    let mut out: Vec<String> = Vec::new();
    let n = v.len();
    proof {
        assert(views_of(v@).take(0) =~= Seq::<Seq<char>>::empty());
        assert(views_of(out@) =~= views_of(v@).take(0).filter(|p: Seq<char>| p.len() > 0));
    }
    for i in 0..n
        invariant
            n == v@.len(),
            views_of(out@) == views_of(v@).take(i as int).filter(|p: Seq<char>| p.len() > 0),
        decreases n - i,
    {
        let ghost pre = out@;
        let piece = clone_string(&v[i]);
        if piece.unicode_len() > 0 {
            out.push(piece);
        }
        proof {
            let pred = |p: Seq<char>| p.len() > 0;
            let x = v@[i as int]@;
            assert(views_of(v@).take(i + 1) =~= views_of(v@).take(i as int).push(x));
            views_of(v@).take(i as int).lemma_filter_push(x, pred);
            if x.len() > 0 {
                assert(views_of(out@) =~= views_of(pre).push(x));
            }
        }
    }
    proof {
        assert(views_of(v@).take(v@.len() as int) =~= views_of(v@));
    }
    out
}

/// Copy a string.
pub fn clone_string(s: &String) -> (r: String)
    ensures
        r@ == s@,
{
    s.clone()
}

/// `s` with leading ASCII whitespace removed.
pub open spec fn spec_ltrim(s: Seq<char>) -> Seq<char>
    decreases s.len(),
{
    if s.len() > 0 && spec_is_ws(s[0]) {
        spec_ltrim(s.drop_first())
    } else {
        s
    }
}

/// `s` with trailing ASCII whitespace removed.
pub open spec fn spec_rtrim(s: Seq<char>) -> Seq<char>
    decreases s.len(),
{
    if s.len() > 0 && spec_is_ws(s.last()) {
        spec_rtrim(s.drop_last())
    } else {
        s
    }
}

/// `s` with leading and trailing ASCII whitespace removed.
pub open spec fn spec_trim(s: Seq<char>) -> Seq<char> {
    spec_rtrim(spec_ltrim(s))
}

/// Executable test of `spec_is_ws`.
pub fn is_ws_char(c: char) -> (r: bool)
    ensures
        r == spec_is_ws(c),
{
    c == ' ' || c == '\t' || c == '\r' || c == '\n'
}

/// Remove leading and trailing ASCII whitespace.
pub fn trim_str(s: &str) -> (r: String)
    ensures
        r@ == spec_trim(s@),
{
    let n = s.unicode_len();
    let mut lo: usize = 0;
    proof {
        assert(s@.skip(0) =~= s@);
    }
    while lo < n && is_ws_char(s.get_char(lo))
        invariant
            n == s@.len(),
            lo <= n,
            spec_ltrim(s@) == spec_ltrim(s@.skip(lo as int)),
        decreases n - lo,
    {
        proof {
            assert(s@.skip(lo as int).drop_first() =~= s@.skip(lo + 1));
        }
        lo = lo + 1;
    }
    proof {
        if lo < n {
            assert(spec_ltrim(s@.skip(lo as int)) == s@.skip(lo as int));
        } else {
            assert(s@.skip(lo as int) =~= Seq::<char>::empty());
            assert(spec_ltrim(s@) =~= s@.skip(lo as int));
        }
    }
    proof {
        assert(s@.skip(lo as int) =~= s@.subrange(lo as int, n as int));
    }
    let mut hi: usize = n;
    while hi > lo && is_ws_char(s.get_char(hi - 1))
        invariant
            n == s@.len(),
            lo <= hi <= n,
            spec_ltrim(s@) == s@.skip(lo as int),
            spec_rtrim(s@.skip(lo as int)) == spec_rtrim(s@.subrange(lo as int, hi as int)),
        decreases hi,
    {
        proof {
            assert(s@.subrange(lo as int, hi as int).last() == s@[hi - 1]);
            assert(s@.subrange(lo as int, hi as int).drop_last() =~= s@.subrange(
                lo as int,
                hi - 1,
            ));
        }
        hi = hi - 1;
    }
    proof {
        assert(s@.skip(lo as int) =~= s@.subrange(lo as int, n as int));
        let piece = s@.subrange(lo as int, hi as int);
        if hi > lo {
            assert(piece.last() == s@[hi - 1]);
            assert(spec_rtrim(piece) == piece);
        } else {
            assert(piece =~= Seq::<char>::empty());
            assert(spec_rtrim(piece) == piece);
        }
    }
    let piece = s.substring_char(lo, hi);
    piece.to_owned()
}

/// Character-exact equality of two string slices.
pub fn str_eq(a: &str, b: &str) -> (r: bool)
    ensures
        r == (a@ == b@),
{
    let na = a.unicode_len();
    let nb = b.unicode_len();
    if na != nb {
        return false;
    }
    let mut i: usize = 0;
    while i < na
        invariant
            na == a@.len(),
            na == b@.len(),
            i <= na,
            forall|j: int| 0 <= j < i ==> a@[j] == b@[j],
        decreases na - i,
    {
        if a.get_char(i) != b.get_char(i) {
            return false;
        }
        i = i + 1;
    }
    proof {
        assert(a@ =~= b@);
    }
    true
}

/// True when `p` is a prefix of `s`.
pub open spec fn spec_starts_with(s: Seq<char>, p: Seq<char>) -> bool {
    p.len() <= s.len() && s.take(p.len() as int) == p
}

/// Prefix test.
pub fn starts_with_str(s: &str, p: &str) -> (r: bool)
    ensures
        r == spec_starts_with(s@, p@),
{
    let np = p.unicode_len();
    let ns = s.unicode_len();
    if np > ns {
        return false;
    }
    let mut i: usize = 0;
    while i < np
        invariant
            np == p@.len(),
            ns == s@.len(),
            np <= ns,
            i <= np,
            forall|j: int| 0 <= j < i ==> s@[j] == p@[j],
        decreases np - i,
    {
        if s.get_char(i) != p.get_char(i) {
            proof {
                assert(s@.take(np as int)[i as int] != p@[i as int]);
            }
            return false;
        }
        i = i + 1;
    }
    proof {
        assert(s@.take(np as int) =~= p@);
    }
    true
}

/// True when `p` occurs contiguously somewhere in `s`.
pub open spec fn spec_contains(s: Seq<char>, p: Seq<char>) -> bool {
    exists|i: int| 0 <= i <= s.len() - p.len() && #[trigger] s.subrange(i, i + p.len()) == p
}

/// Substring search.
pub fn contains_str(s: &str, p: &str) -> (r: bool)
    ensures
        r == spec_contains(s@, p@),
{
    let np = p.unicode_len();
    let ns = s.unicode_len();
    if np > ns {
        return false;
    }
    if np == 0 {
        proof {
            assert(s@.subrange(0, 0 + p@.len() as int) =~= p@);
        }
        return true;
    }
    let mut i: usize = 0;
    while i <= ns - np
        invariant
            np == p@.len(),
            ns == s@.len(),
            0 < np <= ns,
            i <= ns - np + 1,
            forall|j: int| 0 <= j < i ==> #[trigger] s@.subrange(j, j + p@.len()) != p@,
        decreases ns + 1 - np - i,
    {
        let window = s.substring_char(i, i + np);
        if str_eq(window, p) {
            proof {
                assert(s@.subrange(i as int, i + p@.len()) == p@);
            }
            return true;
        }
        i = i + 1;
    }
    proof {
        if spec_contains(s@, p@) {
            let w = choose|w: int|
                0 <= w <= s@.len() - p@.len() && #[trigger] s@.subrange(w, w + p@.len()) == p@;
            assert(s@.subrange(w, w + p@.len()) != p@);
        }
    }
    false
}

/// Lower-case an ASCII letter; other characters are unchanged.
pub open spec fn spec_lower_char(c: char) -> char {
    if 'A' <= c && c <= 'Z' {
        (((c as u32) + 32) as u8) as char
    } else {
        c
    }
}

/// Upper-case an ASCII letter; other characters are unchanged.
pub open spec fn spec_upper_char(c: char) -> char {
    if 'a' <= c && c <= 'z' {
        (((c as u32) - 32) as u8) as char
    } else {
        c
    }
}

/// `s` with every ASCII letter lower-cased.
pub open spec fn spec_to_lower(s: Seq<char>) -> Seq<char> {
    s.map_values(|c: char| spec_lower_char(c))
}

/// `s` with every ASCII letter upper-cased.
pub open spec fn spec_to_upper(s: Seq<char>) -> Seq<char> {
    s.map_values(|c: char| spec_upper_char(c))
}

/// Lower-case one character.
pub fn lower_char(c: char) -> (r: char)
    ensures
        r == spec_lower_char(c),
{
    if 'A' <= c && c <= 'Z' {
        (((c as u32) + 32) as u8) as char
    } else {
        c
    }
}

/// Upper-case one character.
pub fn upper_char(c: char) -> (r: char)
    ensures
        r == spec_upper_char(c),
{
    if 'a' <= c && c <= 'z' {
        (((c as u32) - 32) as u8) as char
    } else {
        c
    }
}

/// Lower-case every ASCII letter of `s`.
pub fn to_ascii_lower(s: &str) -> (r: String)
    ensures
        r@ == spec_to_lower(s@),
{
    let n = s.unicode_len();
    let mut out = String::new();
    let mut i: usize = 0;
    proof {
        assert(out@ =~= s@.take(0).map_values(|c: char| spec_lower_char(c)));
    }
    while i < n
        invariant
            n == s@.len(),
            i <= n,
            out@ == s@.take(i as int).map_values(|c: char| spec_lower_char(c)),
        decreases n - i,
    {
        push_char(&mut out, lower_char(s.get_char(i)));
        proof {
            assert(out@ =~= s@.take(i + 1).map_values(|c: char| spec_lower_char(c)));
        }
        i = i + 1;
    }
    proof {
        assert(s@.take(n as int) =~= s@);
    }
    out
}

/// Upper-case every ASCII letter of `s`.
pub fn to_ascii_upper(s: &str) -> (r: String)
    ensures
        r@ == spec_to_upper(s@),
{
    let n = s.unicode_len();
    let mut out = String::new();
    let mut i: usize = 0;
    proof {
        assert(out@ =~= s@.take(0).map_values(|c: char| spec_upper_char(c)));
    }
    while i < n
        invariant
            n == s@.len(),
            i <= n,
            out@ == s@.take(i as int).map_values(|c: char| spec_upper_char(c)),
        decreases n - i,
    {
        push_char(&mut out, upper_char(s.get_char(i)));
        proof {
            assert(out@ =~= s@.take(i + 1).map_values(|c: char| spec_upper_char(c)));
        }
        i = i + 1;
    }
    proof {
        assert(s@.take(n as int) =~= s@);
    }
    out
}

/// True when `c` is an ASCII decimal digit.
pub open spec fn spec_is_digit(c: char) -> bool {
    '0' <= c && c <= '9'
}

/// Numeric value of a decimal digit.
pub open spec fn spec_digit_val(c: char) -> int {
    c as int - '0' as int
}

/// True when `c` is an ASCII hexadecimal digit.
pub open spec fn spec_is_hex_digit(c: char) -> bool {
    spec_is_digit(c) || ('a' <= c && c <= 'f') || ('A' <= c && c <= 'F')
}

/// Numeric value of a hexadecimal digit.
pub open spec fn spec_hex_digit_val(c: char) -> int {
    if spec_is_digit(c) {
        c as int - '0' as int
    } else if 'a' <= c && c <= 'f' {
        c as int - 'a' as int + 10
    } else {
        c as int - 'A' as int + 10
    }
}

/// Executable test of `spec_is_digit`.
pub fn is_digit(c: char) -> (r: bool)
    ensures
        r == spec_is_digit(c),
{
    '0' <= c && c <= '9'
}

/// Executable test of `spec_is_hex_digit`.
pub fn is_hex_digit(c: char) -> (r: bool)
    ensures
        r == spec_is_hex_digit(c),
{
    ('0' <= c && c <= '9') || ('a' <= c && c <= 'f') || ('A' <= c && c <= 'F')
}

/// Every character of `s` is a decimal digit.
pub open spec fn spec_all_digits(s: Seq<char>) -> bool {
    forall|i: int| 0 <= i < s.len() ==> spec_is_digit(#[trigger] s[i])
}

/// Every character of `s` is a hexadecimal digit.
pub open spec fn spec_all_hex(s: Seq<char>) -> bool {
    forall|i: int| 0 <= i < s.len() ==> spec_is_hex_digit(#[trigger] s[i])
}

/// The value of a decimal digit string.
pub open spec fn spec_dec_val(s: Seq<char>) -> int
    decreases s.len(),
{
    if s.len() == 0 {
        0
    } else {
        spec_dec_val(s.drop_last()) * 10 + spec_digit_val(s.last())
    }
}

/// The value of a hexadecimal digit string.
pub open spec fn spec_hex_val(s: Seq<char>) -> int
    decreases s.len(),
{
    if s.len() == 0 {
        0
    } else {
        spec_hex_val(s.drop_last()) * 16 + spec_hex_digit_val(s.last())
    }
}

/// A decimal digit string has a non-negative value.
pub proof fn lemma_dec_val_nonneg(s: Seq<char>)
    requires
        spec_all_digits(s),
    ensures
        spec_dec_val(s) >= 0,
    decreases s.len(),
{
    if s.len() > 0 {
        assert(spec_all_digits(s.drop_last()));
        lemma_dec_val_nonneg(s.drop_last());
    }
}

/// A hexadecimal digit string has a non-negative value.
pub proof fn lemma_hex_val_nonneg(s: Seq<char>)
    requires
        spec_all_hex(s),
    ensures
        spec_hex_val(s) >= 0,
    decreases s.len(),
{
    if s.len() > 0 {
        assert(spec_all_hex(s.drop_last()));
        lemma_hex_val_nonneg(s.drop_last());
    }
}

/// Parse a non-empty all-decimal string whose value is at most `cap`.
pub fn parse_dec_u64(s: &str, cap: u64) -> (r: Option<u64>)
    ensures
        r matches Some(v) ==> s@.len() > 0 && spec_all_digits(s@) && v == spec_dec_val(s@) && v
            <= cap,
        r is None ==> s@.len() == 0 || !spec_all_digits(s@) || spec_dec_val(s@) > cap,
{
    let n = s.unicode_len();
    if n == 0 {
        return None;
    }
    let bound: u128 = cap as u128 + 1;
    let mut acc: u128 = 0;
    let mut i: usize = 0;
    proof {
        assert(s@.take(0) =~= Seq::<char>::empty());
    }
    while i < n
        invariant
            n == s@.len(),
            i <= n,
            bound == cap as int + 1,
            spec_all_digits(s@.take(i as int)),
            acc == spec_cap_min(spec_dec_val(s@.take(i as int)), bound as int),
        decreases n - i,
    {
        let c = s.get_char(i);
        if !is_digit(c) {
            return None;
        }
        let d: u128 = ((c as u32) - 48) as u128;
        let ghost pre = s@.take(i as int);
        let ghost v_pre = spec_dec_val(pre);
        proof {
            lemma_dec_val_nonneg(pre);
            assert(s@.take(i + 1).drop_last() =~= pre);
            assert(s@.take(i + 1).last() == s@[i as int]);
            assert(spec_dec_val(s@.take(i + 1)) == v_pre * 10 + spec_digit_val(s@[i as int]));
            assert(spec_all_digits(s@.take(i + 1)));
            lemma_cap_min_step(v_pre, bound as int, spec_digit_val(s@[i as int]), 10);
        }
        let mut next: u128 = acc * 10 + d;
        if next > bound {
            next = bound;
        }
        acc = next;
        i = i + 1;
    }
    proof {
        assert(s@.take(n as int) =~= s@);
        lemma_dec_val_nonneg(s@);
    }
    if acc < bound {
        Some(acc as u64)
    } else {
        None
    }
}

/// Parse a non-empty all-hexadecimal string whose value is at most `cap`.
pub fn parse_hex_u64(s: &str, cap: u64) -> (r: Option<u64>)
    ensures
        r matches Some(v) ==> s@.len() > 0 && spec_all_hex(s@) && v == spec_hex_val(s@) && v
            <= cap,
        r is None ==> s@.len() == 0 || !spec_all_hex(s@) || spec_hex_val(s@) > cap,
{
    let n = s.unicode_len();
    if n == 0 {
        return None;
    }
    let bound: u128 = cap as u128 + 1;
    let mut acc: u128 = 0;
    let mut i: usize = 0;
    proof {
        assert(s@.take(0) =~= Seq::<char>::empty());
    }
    while i < n
        invariant
            n == s@.len(),
            i <= n,
            bound == cap as int + 1,
            spec_all_hex(s@.take(i as int)),
            acc == spec_cap_min(spec_hex_val(s@.take(i as int)), bound as int),
        decreases n - i,
    {
        let c = s.get_char(i);
        if !is_hex_digit(c) {
            return None;
        }
        let d: u128 = hex_digit_val(c) as u128;
        let ghost pre = s@.take(i as int);
        let ghost v_pre = spec_hex_val(pre);
        proof {
            lemma_hex_val_nonneg(pre);
            assert(s@.take(i + 1).drop_last() =~= pre);
            assert(s@.take(i + 1).last() == s@[i as int]);
            assert(spec_hex_val(s@.take(i + 1)) == v_pre * 16 + spec_hex_digit_val(s@[i as int]));
            assert(spec_all_hex(s@.take(i + 1)));
            lemma_cap_min_step(v_pre, bound as int, spec_hex_digit_val(s@[i as int]), 16);
        }
        let mut next: u128 = acc * 16 + d;
        if next > bound {
            next = bound;
        }
        acc = next;
        i = i + 1;
    }
    proof {
        assert(s@.take(n as int) =~= s@);
        lemma_hex_val_nonneg(s@);
    }
    if acc < bound {
        Some(acc as u64)
    } else {
        None
    }
}

/// Numeric value of one hexadecimal digit.
pub fn hex_digit_val(c: char) -> (r: u8)
    requires
        spec_is_hex_digit(c),
    ensures
        r == spec_hex_digit_val(c),
        r < 16,
{
    if '0' <= c && c <= '9' {
        ((c as u32) - 48) as u8
    } else if 'a' <= c && c <= 'f' {
        ((c as u32) - 97 + 10) as u8
    } else {
        ((c as u32) - 65 + 10) as u8
    }
}

/// `v` capped at `b`.
pub open spec fn spec_cap_min(v: int, b: int) -> int {
    if v <= b {
        v
    } else {
        b
    }
}

/// Capping commutes with one more digit of accumulation.
proof fn lemma_cap_min_step(v: int, b: int, d: int, base: int)
    requires
        v >= 0,
        b >= 1,
        0 <= d < base,
        base >= 2,
    ensures
        spec_cap_min(spec_cap_min(v, b) * base + d, b) == spec_cap_min(v * base + d, b),
{
    if v > b {
        assert(v * base >= v) by (nonlinear_arith)
            requires
                v >= 0 && base >= 1,
        ;
        assert(b * base >= b) by (nonlinear_arith)
            requires
                b >= 0 && base >= 1,
        ;
    }
}

/// The signed decimal value of `s`: an optional sign, then decimal digits,
/// within the signed 64-bit range.
pub open spec fn spec_parse_i64(s: Seq<char>) -> Option<int> {
    let neg = s.len() > 0 && s[0] == '-';
    let body = if s.len() > 0 && (s[0] == '-' || s[0] == '+') {
        s.drop_first()
    } else {
        s
    };
    if body.len() > 0 && spec_all_digits(body) {
        let v = spec_dec_val(body);
        if neg && v <= 0x8000_0000_0000_0000 {
            Some(-v)
        } else if !neg && v <= 0x7fff_ffff_ffff_ffff {
            Some(v)
        } else {
            None
        }
    } else {
        None
    }
}

/// Parse an optionally signed decimal integer.
pub fn parse_i64_dec(s: &str) -> (r: Option<i64>)
    ensures
        r matches Some(v) ==> spec_parse_i64(s@) == Some(v as int),
        r is None ==> spec_parse_i64(s@) is None,
{
    let n = s.unicode_len();
    if n == 0 {
        return None;
    }
    let c0 = s.get_char(0);
    let neg = c0 == '-';
    let signed = c0 == '-' || c0 == '+';
    let body = if signed {
        s.substring_char(1, n)
    } else {
        s.substring_char(0, n)
    };
    proof {
        if signed {
            assert(body@ =~= s@.drop_first());
        } else {
            assert(body@ =~= s@);
        }
    }
    if neg {
        match parse_dec_u64(body, 0x8000_0000_0000_0000u64) {
            Some(v) => {
                if v == 0x8000_0000_0000_0000u64 {
                    Some(i64::MIN)
                } else {
                    Some(-(v as i64))
                }
            },
            None => None,
        }
    } else {
        match parse_dec_u64(body, 0x7fff_ffff_ffff_ffffu64) {
            Some(v) => Some(v as i64),
            None => None,
        }
    }
}

/// The character for a decimal digit value.
pub open spec fn spec_digit_char(d: int) -> char {
    ((48 + d) as u8) as char
}

/// The lower-case character for a hexadecimal digit value.
pub open spec fn spec_hex_char(d: int) -> char {
    if d < 10 {
        ((48 + d) as u8) as char
    } else {
        ((97 + d - 10) as u8) as char
    }
}

/// The decimal digit string of a non-negative value.
pub open spec fn spec_dec_str(v: int) -> Seq<char>
    decreases v,
{
    if v < 10 {
        seq![spec_digit_char(v)]
    } else {
        spec_dec_str(v / 10).push(spec_digit_char(v % 10))
    }
}

/// Append the decimal digits of `v` to `out`.
pub fn push_dec_u64(out: &mut String, v: u64)
    ensures
        final(out)@ == old(out)@ + spec_dec_str(v as int),
    decreases v,
{
    if v < 10 {
        push_char(out, ((48 + v) as u8) as char);
        proof {
            assert(old(out)@ + spec_dec_str(v as int) =~= old(out)@.push(spec_digit_char(v as int)));
        }
    } else {
        push_dec_u64(out, v / 10);
        push_char(out, ((48 + v % 10) as u8) as char);
        proof {
            assert(old(out)@ + spec_dec_str(v as int) =~= (old(out)@ + spec_dec_str(
                v as int / 10,
            )).push(spec_digit_char(v as int % 10)));
        }
    }
}

/// The two lower-case hexadecimal digits of a byte.
pub open spec fn spec_hex2(b: u8) -> Seq<char> {
    seq![spec_hex_char(b as int / 16), spec_hex_char(b as int % 16)]
}

/// Append the two hexadecimal digits of `b` to `out`.
pub fn push_hex2(out: &mut String, b: u8)
    ensures
        final(out)@ == old(out)@ + spec_hex2(b),
{
    let hi = b / 16;
    let lo = b % 16;
    push_char(out, hex_char(hi));
    push_char(out, hex_char(lo));
    proof {
        assert(old(out)@ + spec_hex2(b) =~= old(out)@.push(spec_hex_char(b as int / 16)).push(
            spec_hex_char(b as int % 16),
        ));
    }
}

/// The lower-case hexadecimal character of a digit value.
pub fn hex_char(d: u8) -> (r: char)
    requires
        d < 16,
    ensures
        r == spec_hex_char(d as int),
{
    if d < 10 {
        (48 + d) as char
    } else {
        (97 + d - 10) as char
    }
}

} // verus!
