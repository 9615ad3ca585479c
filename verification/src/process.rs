//! The process records that the monitor lists, the orders it lists them in,
//! and a stable sort that is proved to produce that order.
use vstd::prelude::*;
use crate::text::{lex_lt, lex_less, chars_of, lemma_lex_irreflexive, lemma_lex_transitive, lemma_lex_total, contains, contains_chars, decimal, decimal_string, lowercase, to_lowercase};

verus! {

/// One row of the process table, as read from the operating system.
///
/// `cpu_bits` holds the IEEE 754 bit pattern of the `f32` CPU usage in
/// percent (`f32::to_bits`); the library orders rows by it and never does
/// floating-point arithmetic on it.
pub struct ProcInfo {
    pub pid: u32,
    pub name: String,
    pub cmd: String,
    pub cpu_bits: u32,
    pub memory: u64,
    pub status: String,
}

/// The column that the process list is ordered by.
#[derive(Clone, Copy, PartialEq, Eq, Structural, Debug)]
pub enum SortBy {
    Cpu,
    Mem,
    Pid,
    Name,
}

// ---------------------------------------------------------------------------
// CPU usage as an order key
// ---------------------------------------------------------------------------

/// The `f32` with these bits is a NaN (all exponent bits set, mantissa not
/// zero).
pub open spec fn cpu_is_nan(bits: u32) -> bool {
    let magnitude = if bits >= 0x8000_0000 { bits - 0x8000_0000 } else { bits as int };
    magnitude > 0x7f80_0000
}

/// An integer that orders non-NaN `f32` bit patterns as `f32::partial_cmp`
/// orders their values: negative values by reversed bits below positive ones,
/// and `-0.0` equal to `+0.0`.
pub open spec fn cpu_key(bits: u32) -> int {
    if bits >= 0x8000_0000 {
        if bits == 0x8000_0000 {
            0x8000_0000
        } else {
            0xFFFF_FFFF - bits
        }
    } else {
        bits + 0x8000_0000
    }
}

/// Whether the `f32` with these bits is a NaN.
pub fn cpu_bits_are_nan(bits: u32) -> (r: bool)
    ensures
        r == cpu_is_nan(bits),
{
    let magnitude = if bits >= 0x8000_0000 { bits - 0x8000_0000 } else { bits };
    magnitude > 0x7f80_0000
}

/// The order key of a CPU usage bit pattern.
pub fn cpu_order_key(bits: u32) -> (k: u32)
    ensures
        k == cpu_key(bits),
{
    if bits >= 0x8000_0000 {
        if bits == 0x8000_0000 {
            0x8000_0000
        } else {
            0xFFFF_FFFF - bits
        }
    } else {
        bits + 0x8000_0000
    }
}

// ---------------------------------------------------------------------------
// Orders
// ---------------------------------------------------------------------------

/// `a`'s key is strictly smaller than `b`'s in the column `by`.
pub open spec fn precedes(by: SortBy, a: ProcInfo, b: ProcInfo) -> bool {
    match by {
        SortBy::Cpu => cpu_key(a.cpu_bits) < cpu_key(b.cpu_bits),
        SortBy::Mem => a.memory < b.memory,
        SortBy::Pid => a.pid < b.pid,
        SortBy::Name => lex_lt(a.name@, b.name@),
    }
}

/// `a` belongs strictly before `b` when the list is ordered by `by`,
/// descending when `desc` holds.
pub open spec fn goes_before(by: SortBy, desc: bool, a: ProcInfo, b: ProcInfo) -> bool {
    if desc {
        precedes(by, b, a)
    } else {
        precedes(by, a, b)
    }
}

/// `a` and `b` have equal keys in the column `by`.
pub open spec fn same_key(by: SortBy, a: ProcInfo, b: ProcInfo) -> bool {
    !precedes(by, a, b) && !precedes(by, b, a)
}

/// No row of `s` belongs strictly before an earlier one.
pub open spec fn is_sorted(s: Seq<ProcInfo>, by: SortBy, desc: bool) -> bool {
    forall|i: int, j: int| 0 <= i < j < s.len() ==> !goes_before(by, desc, #[trigger] s[j], #[trigger] s[i])
}

/// `perm` maps each position of `out` to a distinct position of `inp`
/// holding the same row.
pub open spec fn is_rearrangement(out: Seq<ProcInfo>, inp: Seq<ProcInfo>, perm: Seq<int>) -> bool {
    &&& perm.len() == out.len()
    &&& out.len() == inp.len()
    &&& forall|k: int| 0 <= k < out.len() ==> 0 <= #[trigger] perm[k] < inp.len() && out[k] == inp[perm[k]]
    &&& forall|k: int, l: int| 0 <= k < l < out.len() ==> #[trigger] perm[k] != #[trigger] perm[l]
}

/// `perm` shows `out` to be a stable sort of `inp`: a rearrangement that is
/// sorted and keeps rows with equal keys in their input order.
pub open spec fn is_stable_sort_witness(
    out: Seq<ProcInfo>,
    inp: Seq<ProcInfo>,
    by: SortBy,
    desc: bool,
    perm: Seq<int>,
) -> bool {
    &&& is_rearrangement(out, inp, perm)
    &&& is_sorted(out, by, desc)
    &&& forall|k: int, l: int|
        0 <= k < l < out.len() && same_key(by, #[trigger] out[k], #[trigger] out[l]) ==> perm[k] < perm[l]
}

/// `out` is what a stable sort of `inp` by `by` (descending when `desc`)
/// gives, as `slice::sort_by` does with the comparator of that column.
pub open spec fn is_stable_sort(out: Seq<ProcInfo>, inp: Seq<ProcInfo>, by: SortBy, desc: bool) -> bool {
    exists|perm: Seq<int>| #[trigger] is_stable_sort_witness(out, inp, by, desc, perm)
}

/// Ordering `procs` by `by` compares CPU usages only when there are two rows
/// or more, and a comparison with a NaN panics (`partial_cmp(..).unwrap()`).
pub open spec fn sortable(procs: Seq<ProcInfo>, by: SortBy) -> bool {
    by == SortBy::Cpu && procs.len() >= 2 ==> forall|i: int| 0 <= i < procs.len() ==> !cpu_is_nan(#[trigger] procs[i].cpu_bits)
}

/// Whether ordering `procs` by `by` would go without a panic.
pub fn can_sort(procs: &Vec<ProcInfo>, by: SortBy) -> (r: bool)
    ensures
        r == sortable(procs@, by),
{
    if by != SortBy::Cpu || procs.len() < 2 {
        return true;
    }
    let mut i: usize = 0;
    while i < procs.len()
        invariant
            0 <= i <= procs.len(),
            by == SortBy::Cpu,
            procs.len() >= 2,
            forall|k: int| 0 <= k < i ==> !cpu_is_nan(#[trigger] procs@[k].cpu_bits),
        decreases procs.len() - i,
    {
        if cpu_bits_are_nan(procs[i].cpu_bits) {
            return false;
        }
        i = i + 1;
    }
    true
}

/// The magnitude bits of an `f32` bit pattern (all but the sign bit).
pub open spec fn magnitude_bits(bits: u32) -> int {
    if bits >= 0x8000_0000 { bits - 0x8000_0000 } else { bits as int }
}

/// The CPU order key orders usages as `f32` values are ordered. For IEEE 754
/// floats, non-negative values are ordered as their bit patterns, negative
/// values in reverse order of their magnitude bits, every negative value
/// below every non-negative one, and `-0.0` equals `+0.0`.
pub proof fn lemma_cpu_key_orders_like_f32(a: u32, b: u32)
    requires
        !cpu_is_nan(a),
        !cpu_is_nan(b),
    ensures
        a < 0x8000_0000 && b < 0x8000_0000 ==> (cpu_key(a) < cpu_key(b) <==> a < b),
        a > 0x8000_0000 && b > 0x8000_0000 ==> (cpu_key(a) < cpu_key(b) <==> magnitude_bits(a) > magnitude_bits(b)),
        a > 0x8000_0000 && b < 0x8000_0000 ==> cpu_key(a) < cpu_key(b),
        a > 0x8000_0000 && b == 0x8000_0000 ==> cpu_key(a) < cpu_key(b),
        cpu_key(0x8000_0000) == cpu_key(0),
        cpu_key(a) == cpu_key(b) <==> (a == b || magnitude_bits(a) == 0 && magnitude_bits(b) == 0),
{
}

/// In the default view (CPU, highest first), a row with a higher
/// non-negative usage belongs before one with a lower usage.
pub proof fn lemma_higher_cpu_first(p: ProcInfo, q: ProcInfo)
    requires
        p.cpu_bits < 0x8000_0000,
        q.cpu_bits < 0x8000_0000,
        q.cpu_bits < p.cpu_bits,
    ensures
        goes_before(SortBy::Cpu, true, p, q),
        !goes_before(SortBy::Cpu, true, q, p),
        goes_before(SortBy::Cpu, false, q, p),
{
}

/// Ascending order puts the smaller memory, the smaller pid and the name
/// that is smaller by `str`'s order first; descending order the larger;
/// equal values are equal keys, which a stable sort keeps in input order.
pub proof fn lemma_column_orders(a: ProcInfo, b: ProcInfo)
    ensures
        a.memory < b.memory ==> goes_before(SortBy::Mem, false, a, b) && goes_before(SortBy::Mem, true, b, a)
            && !goes_before(SortBy::Mem, false, b, a),
        a.memory == b.memory ==> same_key(SortBy::Mem, a, b),
        a.pid < b.pid ==> goes_before(SortBy::Pid, false, a, b) && goes_before(SortBy::Pid, true, b, a)
            && !goes_before(SortBy::Pid, false, b, a),
        a.pid == b.pid ==> same_key(SortBy::Pid, a, b),
        lex_lt(a.name@, b.name@) ==> goes_before(SortBy::Name, false, a, b) && goes_before(SortBy::Name, true, b, a)
            && !goes_before(SortBy::Name, false, b, a),
        a.name@ == b.name@ ==> same_key(SortBy::Name, a, b),
        a.cpu_bits == b.cpu_bits ==> same_key(SortBy::Cpu, a, b),
{
    lemma_precedes_asymmetric(SortBy::Name, a, b);
    lemma_lex_irreflexive(a.name@);
}

pub proof fn lemma_precedes_asymmetric(by: SortBy, a: ProcInfo, b: ProcInfo)
    ensures
        precedes(by, a, b) ==> !precedes(by, b, a),
{
    if by == SortBy::Name && lex_lt(a.name@, b.name@) && lex_lt(b.name@, a.name@) {
        lemma_lex_transitive(a.name@, b.name@, a.name@);
        lemma_lex_irreflexive(a.name@);
    }
}

pub proof fn lemma_precedes_irreflexive(by: SortBy, a: ProcInfo)
    ensures
        !precedes(by, a, a),
{
    lemma_lex_irreflexive(a.name@);
}

pub proof fn lemma_precedes_transitive(by: SortBy, a: ProcInfo, b: ProcInfo, c: ProcInfo)
    requires
        precedes(by, a, b),
        precedes(by, b, c),
    ensures
        precedes(by, a, c),
{
    if by == SortBy::Name {
        lemma_lex_transitive(a.name@, b.name@, c.name@);
    }
}

/// If `a` precedes `c`, then any `b` is after `a` or before `c`.
pub proof fn lemma_precedes_split(by: SortBy, a: ProcInfo, b: ProcInfo, c: ProcInfo)
    requires
        precedes(by, a, c),
    ensures
        precedes(by, a, b) || precedes(by, b, c),
{
    if by == SortBy::Name {
        lemma_lex_total(a.name@, b.name@);
        if lex_lt(b.name@, a.name@) {
            lemma_lex_transitive(b.name@, a.name@, c.name@);
        }
    }
}

/// Equal keys in the column `Name` are equal names.
pub proof fn lemma_same_name(a: ProcInfo, b: ProcInfo)
    ensures
        same_key(SortBy::Name, a, b) <==> a.name@ == b.name@,
{
    lemma_lex_total(a.name@, b.name@);
    lemma_lex_irreflexive(a.name@);
}

pub proof fn lemma_goes_before_asymmetric(by: SortBy, desc: bool, a: ProcInfo, b: ProcInfo)
    ensures
        goes_before(by, desc, a, b) ==> !goes_before(by, desc, b, a),
{
    lemma_precedes_asymmetric(by, a, b);
    lemma_precedes_asymmetric(by, b, a);
}

pub proof fn lemma_goes_before_split(by: SortBy, desc: bool, a: ProcInfo, b: ProcInfo, c: ProcInfo)
    requires
        goes_before(by, desc, a, c),
    ensures
        goes_before(by, desc, a, b) || goes_before(by, desc, b, c),
{
    if desc {
        lemma_precedes_split(by, c, b, a);
    } else {
        lemma_precedes_split(by, a, b, c);
    }
}

/// Whether `a`'s key is strictly smaller than `b`'s in the column `by`.
pub fn key_less(by: SortBy, a: &ProcInfo, b: &ProcInfo) -> (r: bool)
    ensures
        r == precedes(by, *a, *b),
{
    match by {
        SortBy::Cpu => cpu_order_key(a.cpu_bits) < cpu_order_key(b.cpu_bits),
        SortBy::Mem => a.memory < b.memory,
        SortBy::Pid => a.pid < b.pid,
        SortBy::Name => {
            let an = chars_of(a.name.as_str());
            let bn = chars_of(b.name.as_str());
            lex_less(&an, &bn)
        },
    }
}

/// Whether `a` belongs strictly before `b`.
pub fn belongs_before(by: SortBy, desc: bool, a: &ProcInfo, b: &ProcInfo) -> (r: bool)
    ensures
        r == goes_before(by, desc, *a, *b),
{
    if desc {
        key_less(by, b, a)
    } else {
        key_less(by, a, b)
    }
}

/// Inserting `x` after the rows that belong before it, and before the rest,
/// keeps a sorted sequence sorted.
proof fn lemma_insert_sorted(s: Seq<ProcInfo>, x: ProcInfo, p: int, by: SortBy, desc: bool)
    requires
        is_sorted(s, by, desc),
        0 <= p <= s.len(),
        forall|k: int| 0 <= k < p ==> goes_before(by, desc, #[trigger] s[k], x),
        p < s.len() ==> !goes_before(by, desc, s[p], x),
    ensures
        is_sorted(s.insert(p, x), by, desc),
        forall|k: int| p <= k < s.len() ==> !goes_before(by, desc, #[trigger] s[k], x),
{
    assert forall|k: int| p <= k < s.len() implies !goes_before(by, desc, #[trigger] s[k], x) by {
        if goes_before(by, desc, s[k], x) {
            lemma_goes_before_split(by, desc, s[k], s[p], x);
            if k > p {
                assert(!goes_before(by, desc, s[k], s[p]));
            }
        }
    }
    let t = s.insert(p, x);
    assert forall|i: int, j: int| 0 <= i < j < t.len() implies !goes_before(by, desc, #[trigger] t[j], #[trigger] t[i]) by {
        if i < p && j == p {
            lemma_goes_before_asymmetric(by, desc, s[i], x);
        } else if i < p && j > p {
            assert(t[j] == s[j - 1]);
        } else if i == p {
            assert(t[j] == s[j - 1]);
        } else if j < p {
            assert(t[i] == s[i] && t[j] == s[j]);
        } else {
            assert(t[i] == s[i - 1] && t[j] == s[j - 1]);
        }
    }
}

/// Sorts `procs` by `by`, descending when `desc`: a stable insertion sort.
pub fn sort_procs(procs: Vec<ProcInfo>, by: SortBy, desc: bool) -> (out: Vec<ProcInfo>)
    requires
        sortable(procs@, by),
    ensures
        is_stable_sort(out@, procs@, by, desc),
{
    let ghost orig = procs@;
    let n = procs.len();
    let mut rest = procs;
    let mut out: Vec<ProcInfo> = Vec::new();
    let ghost mut perm: Seq<int> = Seq::empty();
    while rest.len() > 0
        invariant
            n == orig.len(),
            rest.len() <= n,
            rest@ == orig.take(rest.len() as int),
            out.len() + rest.len() == n,
            perm.len() == out.len(),
            forall|k: int| 0 <= k < out.len() ==> rest.len() <= #[trigger] perm[k] < n && out@[k] == orig[perm[k]],
            forall|k: int, l: int| 0 <= k < l < out.len() ==> #[trigger] perm[k] != #[trigger] perm[l],
            is_sorted(out@, by, desc),
            forall|k: int, l: int|
                0 <= k < l < out.len() && same_key(by, #[trigger] out@[k], #[trigger] out@[l]) ==> perm[k] < perm[l],
        decreases rest.len(),
    {
        let x = rest.pop().unwrap();
        let i = rest.len();
        assert(x == orig[i as int]);
        assert(rest@ =~= orig.take(i as int));
        let mut p: usize = 0;
        while p < out.len() && belongs_before(by, desc, &out[p], &x)
            invariant
                0 <= p <= out.len(),
                forall|k: int| 0 <= k < p ==> goes_before(by, desc, #[trigger] out@[k], x),
            decreases out.len() - p,
        {
            p = p + 1;
        }
        let ghost old_out = out@;
        let ghost old_perm = perm;
        proof {
            lemma_insert_sorted(old_out, x, p as int, by, desc);
        }
        out.insert(p, x);
        proof {
            perm = old_perm.insert(p as int, i as int);
            assert forall|k: int, l: int|
                0 <= k < l < out.len() && same_key(by, #[trigger] out@[k], #[trigger] out@[l]) implies perm[k] < perm[l] by {
                if l == p {
                    assert(goes_before(by, desc, old_out[k], x));
                    lemma_goes_before_asymmetric(by, desc, old_out[k], x);
                } else if k == p {
                    assert(perm[l] == old_perm[l - 1]);
                } else if l < p {
                    assert(out@[k] == old_out[k] && out@[l] == old_out[l]);
                } else if k < p {
                    assert(out@[l] == old_out[l - 1] && perm[l] == old_perm[l - 1]);
                } else {
                    assert(out@[k] == old_out[k - 1] && out@[l] == old_out[l - 1]);
                }
            }
            assert forall|k: int, l: int| 0 <= k < l < out.len() implies #[trigger] perm[k] != #[trigger] perm[l] by {
                if k < p && l > p {
                    assert(perm[l] == old_perm[l - 1]);
                } else if k > p {
                    assert(perm[k] == old_perm[k - 1] && perm[l] == old_perm[l - 1]);
                } else if l < p {
                } else if k == p {
                    assert(perm[l] == old_perm[l - 1]);
                }
            }
            assert forall|k: int| 0 <= k < out.len() implies rest.len() <= #[trigger] perm[k] < n && out@[k] == orig[perm[k]] by {
                if k > p {
                    assert(perm[k] == old_perm[k - 1]);
                }
            }
        }
    }
    proof {
        assert(is_stable_sort_witness(out@, orig, by, desc, perm));
    }
    out
}

// ---------------------------------------------------------------------------
// Search
// ---------------------------------------------------------------------------

/// A row whose lower-cased name, lower-cased command line and decimal pid
/// are given matches a lower-cased query when one of them contains it.
pub open spec fn matches_lowered(name_lower: Seq<char>, cmd_lower: Seq<char>, pid: u32, query_lower: Seq<char>) -> bool {
    contains(name_lower, query_lower) || contains(cmd_lower, query_lower) || contains(decimal(pid as nat), query_lower)
}

/// `p` matches the search `query`, case-insensitively.
pub open spec fn proc_matches(p: ProcInfo, query: Seq<char>) -> bool {
    matches_lowered(lowercase(p.name@), lowercase(p.cmd@), p.pid, lowercase(query))
}

/// The rows that the search `query` keeps, in order: all of them when the
/// query is empty.
pub open spec fn search_filter(procs: Seq<ProcInfo>, query: Seq<char>) -> Seq<ProcInfo> {
    if query.len() == 0 {
        procs
    } else {
        procs.filter(|p: ProcInfo| proc_matches(p, query))
    }
}

/// A row matches a lower-cased query exactly when its lower-cased name, its
/// lower-cased command line or its decimal pid contains it: each of the
/// three is searched whatever the others hold.
pub proof fn lemma_match_fields(name_lower: Seq<char>, cmd_lower: Seq<char>, pid: u32, query_lower: Seq<char>)
    ensures
        contains(name_lower, query_lower) ==> matches_lowered(name_lower, cmd_lower, pid, query_lower),
        contains(cmd_lower, query_lower) ==> matches_lowered(name_lower, cmd_lower, pid, query_lower),
        contains(decimal(pid as nat), query_lower) ==> matches_lowered(name_lower, cmd_lower, pid, query_lower),
        matches_lowered(name_lower, cmd_lower, pid, query_lower) ==> contains(name_lower, query_lower)
            || contains(cmd_lower, query_lower) || contains(decimal(pid as nat), query_lower),
{
}

/// A row is kept by a search exactly when its lower-cased name, command line
/// or decimal pid contains the lower-cased query.
pub proof fn lemma_row_match_fields(p: ProcInfo, query: Seq<char>)
    ensures
        contains(lowercase(p.name@), lowercase(query)) ==> proc_matches(p, query),
        contains(lowercase(p.cmd@), lowercase(query)) ==> proc_matches(p, query),
        contains(decimal(p.pid as nat), lowercase(query)) ==> proc_matches(p, query),
        proc_matches(p, query) ==> contains(lowercase(p.name@), lowercase(query)) || contains(lowercase(p.cmd@), lowercase(query))
            || contains(decimal(p.pid as nat), lowercase(query)),
{
    lemma_match_fields(lowercase(p.name@), lowercase(p.cmd@), p.pid, lowercase(query));
}

/// Whether a row with these lower-cased texts and this pid matches the
/// lower-cased query.
pub fn query_matches(name_lower: &str, cmd_lower: &str, pid: u32, query_lower: &str) -> (r: bool)
    ensures
        r == matches_lowered(name_lower@, cmd_lower@, pid, query_lower@),
{
    let q = chars_of(query_lower);
    let name = chars_of(name_lower);
    if contains_chars(&name, &q) {
        return true;
    }
    let cmd = chars_of(cmd_lower);
    if contains_chars(&cmd, &q) {
        return true;
    }
    let pid_text = decimal_string(pid as u64);
    let digits = chars_of(pid_text.as_str());
    contains_chars(&digits, &q)
}

/// Whether `p` matches the search `query`.
pub fn proc_matches_query(p: &ProcInfo, query: &str) -> (r: bool)
    ensures
        r == proc_matches(*p, query@),
{
    let q = to_lowercase(query);
    let name = to_lowercase(p.name.as_str());
    let cmd = to_lowercase(p.cmd.as_str());
    query_matches(name.as_str(), cmd.as_str(), p.pid, q.as_str())
}

/// Keeps the rows that match the search `query`, in order; keeps all of
/// them when the query is empty.
pub fn filter_procs(procs: Vec<ProcInfo>, query: &str) -> (out: Vec<ProcInfo>)
    ensures
        out@ == search_filter(procs@, query@),
{
    if query.is_empty() {
        return procs;
    }
    let ghost pred = |p: ProcInfo| proc_matches(p, query@);
    let mut out: Vec<ProcInfo> = Vec::new();
    let mut rest = procs;
    let ghost orig = rest@;
    let mut kept_rev: Vec<ProcInfo> = Vec::new();
    assert(orig.take(orig.len() as int) =~= orig);
    assert(orig.filter(pred) + kept_rev@.reverse() =~= orig.filter(pred));
    // Walk from the back, keeping matches, then restore their order.
    while rest.len() > 0
        invariant
            rest@ == orig.take(rest.len() as int),
            rest.len() <= orig.len(),
            orig.take(rest.len() as int).filter(pred) + kept_rev@.reverse() == orig.filter(pred),
            pred == (|p: ProcInfo| proc_matches(p, query@)),
        decreases rest.len(),
    {
        let p = rest.pop().unwrap();
        let ghost len = rest.len() as int;
        let ghost before = kept_rev@;
        assert(orig.take(len + 1).drop_last() =~= orig.take(len));
        assert(orig.take(len + 1).last() == p);
        let keep = proc_matches_query(&p, query);
        assert(keep == pred(p));
        if keep {
            kept_rev.push(p);
            assert(orig.take(len + 1).filter(pred) == orig.take(len).filter(pred).push(p)) by {
                reveal_with_fuel(Seq::filter, 1);
            }
            assert(kept_rev@.reverse() =~= seq![p] + before.reverse());
            assert(orig.take(len).filter(pred) + kept_rev@.reverse() =~= orig.take(len + 1).filter(pred) + before.reverse());
        } else {
            assert(orig.take(len + 1).filter(pred) == orig.take(len).filter(pred)) by {
                reveal_with_fuel(Seq::filter, 1);
            }
        }
    }
    assert(orig.take(0) =~= Seq::<ProcInfo>::empty());
    assert(orig.take(0).filter(pred) =~= Seq::<ProcInfo>::empty()) by {
        reveal_with_fuel(Seq::filter, 1);
    }
    assert(kept_rev@.reverse() =~= orig.filter(pred));
    assert(out@ + kept_rev@.reverse() =~= orig.filter(pred));
    while kept_rev.len() > 0
        invariant
            out@ + kept_rev@.reverse() == orig.filter(pred),
        decreases kept_rev.len(),
    {
        let ghost before = kept_rev@;
        let p = kept_rev.pop().unwrap();
        proof {
            assert(before.reverse() =~= seq![p] + kept_rev@.reverse());
        }
        out.push(p);
        assert(out@ + kept_rev@.reverse() =~= orig.filter(pred));
    }
    assert(kept_rev@.reverse() =~= Seq::<ProcInfo>::empty());
    assert(out@ =~= orig.filter(pred));
    out
}

/// A strictly increasing sequence of `n` indices below `n` is `0, 1, .., n-1`.
proof fn lemma_increasing_indices(s: Seq<int>, k: int)
    requires
        0 <= k < s.len(),
        forall|i: int| 0 <= i < s.len() ==> 0 <= #[trigger] s[i] < s.len(),
        forall|i: int, j: int| 0 <= i < j < s.len() ==> #[trigger] s[i] < #[trigger] s[j],
    ensures
        s[k] == k,
{
    lemma_increasing_lower(s, k);
    lemma_increasing_upper(s, k);
}

proof fn lemma_increasing_lower(s: Seq<int>, k: int)
    requires
        0 <= k < s.len(),
        forall|i: int| 0 <= i < s.len() ==> 0 <= #[trigger] s[i] < s.len(),
        forall|i: int, j: int| 0 <= i < j < s.len() ==> #[trigger] s[i] < #[trigger] s[j],
    ensures
        s[k] >= k,
    decreases k,
{
    if k > 0 {
        lemma_increasing_lower(s, k - 1);
        assert(s[k - 1] < s[k]);
    }
}

proof fn lemma_increasing_upper(s: Seq<int>, k: int)
    requires
        0 <= k < s.len(),
        forall|i: int| 0 <= i < s.len() ==> 0 <= #[trigger] s[i] < s.len(),
        forall|i: int, j: int| 0 <= i < j < s.len() ==> #[trigger] s[i] < #[trigger] s[j],
    ensures
        s[k] <= k,
    decreases s.len() - k,
{
    if k < s.len() - 1 {
        lemma_increasing_upper(s, k + 1);
        assert(s[k] < s[k + 1]);
    }
}

/// Sorting a list that is already in order leaves it as it is: a stable sort
/// of a sorted sequence is that sequence.
pub proof fn lemma_stable_sort_of_sorted(out: Seq<ProcInfo>, inp: Seq<ProcInfo>, by: SortBy, desc: bool)
    requires
        is_sorted(inp, by, desc),
        is_stable_sort(out, inp, by, desc),
    ensures
        out == inp,
{
    let perm = choose|perm: Seq<int>| is_stable_sort_witness(out, inp, by, desc, perm);
    assert forall|k: int, l: int| 0 <= k < l < perm.len() implies #[trigger] perm[k] < #[trigger] perm[l] by {
        assert(perm[k] != perm[l]);
        if perm[k] > perm[l] {
            assert(!goes_before(by, desc, inp[perm[k]], inp[perm[l]]));
            assert(!goes_before(by, desc, out[l], out[k]));
            assert(same_key(by, out[k], out[l]));
        }
    }
    assert forall|k: int| 0 <= k < out.len() implies out[k] == inp[k] by {
        lemma_increasing_indices(perm, k);
    }
    assert(out =~= inp);
}

/// Sorting twice by the same column and direction gives what sorting once
/// gives.
pub proof fn lemma_sort_idempotent(once: Seq<ProcInfo>, twice: Seq<ProcInfo>, inp: Seq<ProcInfo>, by: SortBy, desc: bool)
    requires
        is_stable_sort(once, inp, by, desc),
        is_stable_sort(twice, once, by, desc),
    ensures
        twice == once,
{
    let perm = choose|perm: Seq<int>| is_stable_sort_witness(once, inp, by, desc, perm);
    lemma_stable_sort_of_sorted(twice, once, by, desc);
}

/// Filtering keeps a sorted list sorted.
pub proof fn lemma_filter_keeps_order(s: Seq<ProcInfo>, pred: spec_fn(ProcInfo) -> bool, by: SortBy, desc: bool)
    requires
        is_sorted(s, by, desc),
    ensures
        is_sorted(s.filter(pred), by, desc),
    decreases s.len(),
{
    reveal_with_fuel(Seq::filter, 1);
    if s.len() > 0 {
        let init = s.drop_last();
        assert forall|i: int, j: int| 0 <= i < j < init.len() implies !goes_before(by, desc, #[trigger] init[j], #[trigger] init[i]) by {
            assert(init[i] == s[i] && init[j] == s[j]);
        }
        lemma_filter_keeps_order(init, pred, by, desc);
        let f = init.filter(pred);
        if pred(s.last()) {
            let g = f.push(s.last());
            assert forall|i: int, j: int| 0 <= i < j < g.len() implies !goes_before(by, desc, #[trigger] g[j], #[trigger] g[i]) by {
                if j == g.len() - 1 {
                    assert(f.contains(f[i]));
                    init.lemma_filter_contains_rev(pred, f[i]);
                    let k = choose|k: int| 0 <= k < init.len() && init[k] == f[i];
                    assert(s[k] == f[i]);
                    assert(!goes_before(by, desc, s[s.len() - 1], s[k]));
                } else {
                    assert(g[i] == f[i] && g[j] == f[j]);
                }
            }
        }
    }
}

/// Filtering twice with the same condition is filtering once.
pub proof fn lemma_filter_twice(s: Seq<ProcInfo>, pred: spec_fn(ProcInfo) -> bool)
    ensures
        s.filter(pred).filter(pred) == s.filter(pred),
    decreases s.len(),
{
    reveal_with_fuel(Seq::filter, 1);
    if s.len() > 0 {
        lemma_filter_twice(s.drop_last(), pred);
        let f = s.drop_last().filter(pred);
        if pred(s.last()) {
            assert(f.push(s.last()).drop_last() =~= f);
        }
    }
}

/// Searching the rows that a search kept, with the same query, keeps them
/// all.
pub proof fn lemma_search_twice(procs: Seq<ProcInfo>, query: Seq<char>)
    ensures
        search_filter(search_filter(procs, query), query) == search_filter(procs, query),
{
    if query.len() > 0 {
        lemma_filter_twice(procs, |p: ProcInfo| proc_matches(p, query));
    }
}

/// A search keeps the order of the rows, keeps only rows that match a
/// non-empty query, and keeps every row that matches.
pub proof fn lemma_search_result(procs: Seq<ProcInfo>, query: Seq<char>, by: SortBy, desc: bool)
    ensures
        is_sorted(procs, by, desc) ==> is_sorted(search_filter(procs, query), by, desc),
        query.len() > 0 ==> forall|i: int| 0 <= i < search_filter(procs, query).len() ==> proc_matches(#[trigger] search_filter(procs, query)[i], query),
        forall|i: int| 0 <= i < search_filter(procs, query).len() ==> procs.contains(#[trigger] search_filter(procs, query)[i]),
        forall|i: int| 0 <= i < procs.len() && (query.len() == 0 || proc_matches(procs[i], query)) ==> search_filter(procs, query).contains(#[trigger] procs[i]),
{
    let pred = |p: ProcInfo| proc_matches(p, query);
    if is_sorted(procs, by, desc) && query.len() > 0 {
        lemma_filter_keeps_order(procs, pred, by, desc);
    }
    if query.len() > 0 {
        assert forall|i: int| 0 <= i < procs.filter(pred).len() implies proc_matches(#[trigger] procs.filter(pred)[i], query) by {
            procs.lemma_filter_pred(pred, i);
        }
        assert forall|i: int| 0 <= i < procs.filter(pred).len() implies procs.contains(#[trigger] procs.filter(pred)[i]) by {
            assert(procs.filter(pred).contains(procs.filter(pred)[i]));
            procs.lemma_filter_contains_rev(pred, procs.filter(pred)[i]);
        }
        assert forall|i: int| 0 <= i < procs.len() && proc_matches(procs[i], query) implies procs.filter(pred).contains(#[trigger] procs[i]) by {
            procs.lemma_filter_contains(pred, i);
        }
    } else {
        assert forall|i: int| 0 <= i < procs.len() implies procs.contains(#[trigger] procs[i]) by {
        }
    }
}

/// `n` distinct indices below `n` take every value below `n`.
proof fn lemma_distinct_indices_cover(perm: Seq<int>, v: int)
    requires
        forall|k: int| 0 <= k < perm.len() ==> 0 <= #[trigger] perm[k] < perm.len(),
        forall|k: int, l: int| 0 <= k < l < perm.len() ==> #[trigger] perm[k] != #[trigger] perm[l],
        0 <= v < perm.len(),
    ensures
        exists|k: int| 0 <= k < perm.len() && #[trigger] perm[k] == v,
{
    broadcast use vstd::seq_lib::group_seq_properties, vstd::set::group_set_axioms, vstd::seq_lib::seq_to_set_is_finite;

    let n = perm.len() as int;
    assert(perm.no_duplicates()) by {
        assert forall|i: int, j: int| 0 <= i < n && 0 <= j < n && i != j implies perm[i] != perm[j] by {
            if i < j {
                assert(perm[i] != perm[j]);
            } else {
                assert(perm[j] != perm[i]);
            }
        }
    }
    perm.unique_seq_to_set();
    vstd::set_lib::lemma_int_range(0, n);
    let range = vstd::set_lib::set_int_range(0, n);
    assert(perm.to_set().subset_of(range)) by {
        assert forall|x: int| perm.to_set().contains(x) implies range.contains(x) by {
            assert(perm.contains(x));
            let k = choose|k: int| 0 <= k < n && perm[k] == x;
        }
    }
    vstd::set_lib::lemma_subset_equality(perm.to_set(), range);
    assert(range.contains(v));
    assert(perm.to_set().contains(v));
    assert(perm.contains(v));
}

/// Two stable sorts of the same rows by the same column and direction are
/// the same list: what `sort_procs` returns is fixed by its input.
pub proof fn lemma_stable_sort_unique(a: Seq<ProcInfo>, b: Seq<ProcInfo>, inp: Seq<ProcInfo>, by: SortBy, desc: bool)
    requires
        is_stable_sort(a, inp, by, desc),
        is_stable_sort(b, inp, by, desc),
    ensures
        a == b,
{
    let pa = choose|perm: Seq<int>| is_stable_sort_witness(a, inp, by, desc, perm);
    let pb = choose|perm: Seq<int>| is_stable_sort_witness(b, inp, by, desc, perm);
    let n = inp.len() as int;
    let r = Seq::new(n as nat, |k: int| choose|l: int| 0 <= l < n && pb[l] == pa[k]);
    assert forall|k: int| 0 <= k < n implies 0 <= #[trigger] r[k] < n && pb[r[k]] == pa[k] && a[k] == b[r[k]] by {
        lemma_distinct_indices_cover(pb, pa[k]);
    }
    assert forall|k: int, l: int| 0 <= k < l < n implies #[trigger] r[k] != #[trigger] r[l] by {
        assert(pb[r[k]] == pa[k] && pb[r[l]] == pa[l]);
        assert(pa[k] != pa[l]);
    }
    assert forall|k: int, l: int| 0 <= k < l < n && same_key(by, #[trigger] a[k], #[trigger] a[l]) implies r[k] < r[l] by {
        assert(pa[k] < pa[l]);
        assert(r[k] != r[l]);
        if r[k] > r[l] {
            assert(b[r[l]] == a[l] && b[r[k]] == a[k]);
            assert(same_key(by, b[r[l]], b[r[k]]));
            assert(pb[r[l]] < pb[r[k]]);
        }
    }
    assert(is_stable_sort_witness(a, b, by, desc, r));
    lemma_stable_sort_of_sorted(a, b, by, desc);
}

/// A stable sort holds exactly the rows it was given, in order.
pub proof fn lemma_stable_sort_rows(out: Seq<ProcInfo>, inp: Seq<ProcInfo>, by: SortBy, desc: bool)
    requires
        is_stable_sort(out, inp, by, desc),
    ensures
        is_sorted(out, by, desc),
        out.len() == inp.len(),
        forall|i: int| 0 <= i < out.len() ==> inp.contains(#[trigger] out[i]),
        forall|j: int| 0 <= j < inp.len() ==> out.contains(#[trigger] inp[j]),
{
    let perm = choose|perm: Seq<int>| is_stable_sort_witness(out, inp, by, desc, perm);
    assert forall|i: int| 0 <= i < out.len() implies inp.contains(#[trigger] out[i]) by {
        assert(inp[perm[i]] == out[i]);
    }
    assert forall|j: int| 0 <= j < inp.len() implies out.contains(#[trigger] inp[j]) by {
        lemma_distinct_indices_cover(perm, j);
        let k = choose|k: int| 0 <= k < perm.len() && #[trigger] perm[k] == j;
        assert(out[k] == inp[j]);
    }
}

} // verus!
