//! Dispatch entries: the steps that are ready to build, and the order in which
//! the dispatcher offers them to machines.

use std::cmp::Ordering;
use vstd::prelude::*;

verus! {

/// A step that is ready for dispatch, with the scheduling data that the
/// database computed for it.
#[derive(Debug)]
pub struct DispatchEntry {
    pub drv_path: String,
    pub resolved_drv_path: Option<String>,
    pub system: String,
    pub required_features: Vec<String>,
    pub ready_time: i32,
    pub highest_global_priority: i32,
    pub highest_local_priority: i32,
    pub lowest_build_id: i32,
    pub rdeps_count: i64,
    /// The lowest share of its jobset's scheduling window already used, given
    /// as its `f64::total_cmp` key: two shares compare as their keys do.
    pub lowest_share_used: i64,
}

/// A ready step as the dispatch query lists it, before its scheduling data
/// is joined in.
#[derive(Debug, Clone, PartialEq, Eq)]
pub struct DispatchCandidate {
    pub drv_path: String,
    pub ready_time: i32,
    pub highest_global_priority: i32,
    pub highest_local_priority: i32,
    pub lowest_build_id: i32,
    pub rdeps_count: i64,
}

/// The order in which ready steps are offered to machines.
#[derive(Debug, Clone, Copy, PartialEq, Eq, Structural)]
pub enum StepSortFn {
    /// Global priority, share used, local priority, build id.
    Legacy,
    /// As `Legacy`, with the number of reverse dependencies after the share used.
    WithRdeps,
}

/// Lexicographic order on integer sequences of the same length: `x` comes
/// strictly before `y`.
pub open spec fn lex_less(x: Seq<int>, y: Seq<int>) -> bool
    decreases x.len(),
{
    if x.len() == 0 || y.len() == 0 {
        false
    } else if x[0] < y[0] {
        true
    } else if x[0] > y[0] {
        false
    } else {
        lex_less(x.drop_first(), y.drop_first())
    }
}

/// The rank of an entry under the legacy order: larger ranks are dispatched
/// first. A lower share used and a lower build id rank higher.
pub open spec fn legacy_key(e: DispatchEntry) -> Seq<int> {
    seq![
        e.highest_global_priority as int,
        -(e.lowest_share_used as int),
        e.highest_local_priority as int,
        -(e.lowest_build_id as int),
    ]
}

/// The rank of an entry under the order that counts reverse dependencies.
pub open spec fn rdeps_key(e: DispatchEntry) -> Seq<int> {
    seq![
        e.highest_global_priority as int,
        -(e.lowest_share_used as int),
        e.rdeps_count as int,
        e.highest_local_priority as int,
        -(e.lowest_build_id as int),
    ]
}

/// The rank of an entry under the given order.
pub open spec fn entry_key(e: DispatchEntry, sort_fn: StepSortFn) -> Seq<int> {
    match sort_fn {
        StepSortFn::Legacy => legacy_key(e),
        StepSortFn::WithRdeps => rdeps_key(e),
    }
}

/// `a` is to be dispatched strictly before `b`.
pub open spec fn precedes(a: DispatchEntry, b: DispatchEntry, sort_fn: StepSortFn) -> bool {
    lex_less(entry_key(b, sort_fn), entry_key(a, sort_fn))
}

proof fn lemma_lex_less_4(x: Seq<int>, y: Seq<int>)
    requires
        x.len() == 4,
        y.len() == 4,
    ensures
        lex_less(x, y) == (x[0] < y[0] || (x[0] == y[0] && (x[1] < y[1] || (x[1] == y[1] && (
        x[2] < y[2] || (x[2] == y[2] && x[3] < y[3])))))),
{
    let x1 = x.drop_first();
    let y1 = y.drop_first();
    let x2 = x1.drop_first();
    let y2 = y1.drop_first();
    let x3 = x2.drop_first();
    let y3 = y2.drop_first();
    let x4 = x3.drop_first();
    let y4 = y3.drop_first();
    assert(x4.len() == 0);
    assert(lex_less(x4, y4) == false);
    assert(lex_less(x3, y3) == (x3[0] < y3[0]));
    assert(lex_less(x2, y2) == (x2[0] < y2[0] || (x2[0] == y2[0] && lex_less(x3, y3))));
    assert(lex_less(x1, y1) == (x1[0] < y1[0] || (x1[0] == y1[0] && lex_less(x2, y2))));
}

proof fn lemma_lex_less_5(x: Seq<int>, y: Seq<int>)
    requires
        x.len() == 5,
        y.len() == 5,
    ensures
        lex_less(x, y) == (x[0] < y[0] || (x[0] == y[0] && lex_less(
            x.drop_first(),
            y.drop_first(),
        ))),
{
}

impl DispatchEntry {
    /// Compares two entries under the legacy order: `Less` when `self` is to be
    /// dispatched first, `Greater` when `other` is, `Equal` when they rank the
    /// same.
    pub fn legacy_compare(&self, other: &Self) -> (r: Ordering)
        ensures
            (r == Ordering::Less) == precedes(*self, *other, StepSortFn::Legacy),
            (r == Ordering::Greater) == precedes(*other, *self, StepSortFn::Legacy),
            (r == Ordering::Equal) == (legacy_key(*self) == legacy_key(*other)),
            self.highest_global_priority > other.highest_global_priority ==> r == Ordering::Less,
            self.highest_global_priority < other.highest_global_priority ==> r == Ordering::Greater,
            self.highest_global_priority == other.highest_global_priority
                && self.lowest_share_used < other.lowest_share_used ==> r == Ordering::Less,
            self.highest_global_priority == other.highest_global_priority
                && self.lowest_share_used > other.lowest_share_used ==> r == Ordering::Greater,
            self.highest_global_priority == other.highest_global_priority
                && self.lowest_share_used == other.lowest_share_used
                && self.highest_local_priority > other.highest_local_priority ==> r == Ordering::Less,
            self.highest_global_priority == other.highest_global_priority
                && self.lowest_share_used == other.lowest_share_used
                && self.highest_local_priority < other.highest_local_priority ==> r
                == Ordering::Greater,
            self.highest_global_priority == other.highest_global_priority
                && self.lowest_share_used == other.lowest_share_used
                && self.highest_local_priority == other.highest_local_priority
                && self.lowest_build_id < other.lowest_build_id ==> r == Ordering::Less,
            self.highest_global_priority == other.highest_global_priority
                && self.lowest_share_used == other.lowest_share_used
                && self.highest_local_priority == other.highest_local_priority
                && self.lowest_build_id > other.lowest_build_id ==> r == Ordering::Greater,
            self.highest_global_priority == other.highest_global_priority
                && self.lowest_share_used == other.lowest_share_used
                && self.highest_local_priority == other.highest_local_priority
                && self.lowest_build_id == other.lowest_build_id ==> r == Ordering::Equal,
    {
        proof {
            lemma_lex_less_4(legacy_key(*self), legacy_key(*other));
            lemma_lex_less_4(legacy_key(*other), legacy_key(*self));
        }
        if self.highest_global_priority != other.highest_global_priority {
            if self.highest_global_priority > other.highest_global_priority {
                Ordering::Less
            } else {
                Ordering::Greater
            }
        } else if self.lowest_share_used != other.lowest_share_used {
            if self.lowest_share_used < other.lowest_share_used {
                Ordering::Less
            } else {
                Ordering::Greater
            }
        } else if self.highest_local_priority != other.highest_local_priority {
            if self.highest_local_priority > other.highest_local_priority {
                Ordering::Less
            } else {
                Ordering::Greater
            }
        } else if self.lowest_build_id != other.lowest_build_id {
            if self.lowest_build_id < other.lowest_build_id {
                Ordering::Less
            } else {
                Ordering::Greater
            }
        } else {
            proof {
                assert(legacy_key(*self) =~= legacy_key(*other));
            }
            Ordering::Equal
        }
    }

    /// Compares two entries under the order that counts reverse
    /// dependencies: like `legacy_compare`, with more reverse dependencies
    /// ranking higher right after the share used.
    pub fn compare_with_rdeps(&self, other: &Self) -> (r: Ordering)
        ensures
            (r == Ordering::Less) == precedes(*self, *other, StepSortFn::WithRdeps),
            (r == Ordering::Greater) == precedes(*other, *self, StepSortFn::WithRdeps),
            (r == Ordering::Equal) == (rdeps_key(*self) == rdeps_key(*other)),
            self.highest_global_priority > other.highest_global_priority ==> r == Ordering::Less,
            self.highest_global_priority < other.highest_global_priority ==> r == Ordering::Greater,
            self.highest_global_priority == other.highest_global_priority
                && self.lowest_share_used < other.lowest_share_used ==> r == Ordering::Less,
            self.highest_global_priority == other.highest_global_priority
                && self.lowest_share_used > other.lowest_share_used ==> r == Ordering::Greater,
            self.highest_global_priority == other.highest_global_priority
                && self.lowest_share_used == other.lowest_share_used && self.rdeps_count
                > other.rdeps_count ==> r == Ordering::Less,
            self.highest_global_priority == other.highest_global_priority
                && self.lowest_share_used == other.lowest_share_used && self.rdeps_count
                < other.rdeps_count ==> r == Ordering::Greater,
            self.highest_global_priority == other.highest_global_priority
                && self.lowest_share_used == other.lowest_share_used && self.rdeps_count
                == other.rdeps_count && self.highest_local_priority > other.highest_local_priority
                ==> r == Ordering::Less,
            self.highest_global_priority == other.highest_global_priority
                && self.lowest_share_used == other.lowest_share_used && self.rdeps_count
                == other.rdeps_count && self.highest_local_priority < other.highest_local_priority
                ==> r == Ordering::Greater,
            self.highest_global_priority == other.highest_global_priority
                && self.lowest_share_used == other.lowest_share_used && self.rdeps_count
                == other.rdeps_count && self.highest_local_priority == other.highest_local_priority
                && self.lowest_build_id < other.lowest_build_id ==> r == Ordering::Less,
            self.highest_global_priority == other.highest_global_priority
                && self.lowest_share_used == other.lowest_share_used && self.rdeps_count
                == other.rdeps_count && self.highest_local_priority == other.highest_local_priority
                && self.lowest_build_id > other.lowest_build_id ==> r == Ordering::Greater,
            self.highest_global_priority == other.highest_global_priority
                && self.lowest_share_used == other.lowest_share_used && self.rdeps_count
                == other.rdeps_count && self.highest_local_priority == other.highest_local_priority
                && self.lowest_build_id == other.lowest_build_id ==> r == Ordering::Equal,
    {
        proof {
            let a = rdeps_key(*self);
            let b = rdeps_key(*other);
            lemma_lex_less_5(a, b);
            lemma_lex_less_5(b, a);
            lemma_lex_less_4(a.drop_first(), b.drop_first());
            lemma_lex_less_4(b.drop_first(), a.drop_first());
        }
        if self.highest_global_priority != other.highest_global_priority {
            if self.highest_global_priority > other.highest_global_priority {
                Ordering::Less
            } else {
                Ordering::Greater
            }
        } else if self.lowest_share_used != other.lowest_share_used {
            if self.lowest_share_used < other.lowest_share_used {
                Ordering::Less
            } else {
                Ordering::Greater
            }
        } else if self.rdeps_count != other.rdeps_count {
            if self.rdeps_count > other.rdeps_count {
                Ordering::Less
            } else {
                Ordering::Greater
            }
        } else if self.highest_local_priority != other.highest_local_priority {
            if self.highest_local_priority > other.highest_local_priority {
                Ordering::Less
            } else {
                Ordering::Greater
            }
        } else if self.lowest_build_id != other.lowest_build_id {
            if self.lowest_build_id < other.lowest_build_id {
                Ordering::Less
            } else {
                Ordering::Greater
            }
        } else {
            proof {
                assert(rdeps_key(*self) =~= rdeps_key(*other));
            }
            Ordering::Equal
        }
    }
}

/// Whether `a` is to be dispatched strictly before `b` under `sort_fn`.
pub fn dispatch_before(a: &DispatchEntry, b: &DispatchEntry, sort_fn: StepSortFn) -> (r: bool)
    ensures
        r == precedes(*a, *b, sort_fn),
{
    match sort_fn {
        StepSortFn::Legacy => match a.legacy_compare(b) {
            Ordering::Less => true,
            _ => false,
        },
        StepSortFn::WithRdeps => match a.compare_with_rdeps(b) {
            Ordering::Less => true,
            _ => false,
        },
    }
}

// ---------------------------------------------------------------------------
// The dispatch order is a strict weak order
// ---------------------------------------------------------------------------

proof fn lemma_lex_irreflexive(x: Seq<int>)
    ensures
        !lex_less(x, x),
    decreases x.len(),
{
    if x.len() > 0 {
        lemma_lex_irreflexive(x.drop_first());
    }
}

proof fn lemma_lex_asymmetric(x: Seq<int>, y: Seq<int>)
    ensures
        lex_less(x, y) ==> !lex_less(y, x),
    decreases x.len(),
{
    if x.len() > 0 && y.len() > 0 && x[0] == y[0] {
        lemma_lex_asymmetric(x.drop_first(), y.drop_first());
    }
}

proof fn lemma_lex_transitive(x: Seq<int>, y: Seq<int>, z: Seq<int>)
    requires
        x.len() == y.len(),
        y.len() == z.len(),
        lex_less(x, y),
        lex_less(y, z),
    ensures
        lex_less(x, z),
    decreases x.len(),
{
    if x[0] == y[0] && y[0] == z[0] {
        lemma_lex_transitive(x.drop_first(), y.drop_first(), z.drop_first());
    }
}

proof fn lemma_lex_total(x: Seq<int>, y: Seq<int>)
    requires
        x.len() == y.len(),
    ensures
        x == y || lex_less(x, y) || lex_less(y, x),
    decreases x.len(),
{
    if x.len() == 0 {
        assert(x =~= y);
    } else if x[0] == y[0] {
        lemma_lex_total(x.drop_first(), y.drop_first());
        if x.drop_first() == y.drop_first() {
            assert(x =~= seq![x[0]] + x.drop_first());
            assert(y =~= seq![y[0]] + y.drop_first());
        }
    }
}

/// The dispatch order ranks entries consistently, whichever order is chosen:
/// no entry comes before itself; of two entries, at most one comes before the
/// other, and if neither does they rank the same; coming before is
/// transitive, and so is ranking no lower.
pub proof fn lemma_dispatch_order(
    a: DispatchEntry,
    b: DispatchEntry,
    c: DispatchEntry,
    sort_fn: StepSortFn,
)
    ensures
        !precedes(a, a, sort_fn),
        precedes(a, b, sort_fn) ==> !precedes(b, a, sort_fn),
        !precedes(a, b, sort_fn) && !precedes(b, a, sort_fn) ==> entry_key(a, sort_fn)
            == entry_key(b, sort_fn),
        precedes(a, b, sort_fn) && precedes(b, c, sort_fn) ==> precedes(a, c, sort_fn),
        !precedes(b, a, sort_fn) && !precedes(c, b, sort_fn) ==> !precedes(c, a, sort_fn),
{
    let ka = entry_key(a, sort_fn);
    let kb = entry_key(b, sort_fn);
    let kc = entry_key(c, sort_fn);
    lemma_lex_irreflexive(ka);
    lemma_lex_asymmetric(kb, ka);
    lemma_lex_total(ka, kb);
    lemma_lex_total(kb, kc);
    lemma_lex_total(ka, kc);
    if precedes(a, b, sort_fn) && precedes(b, c, sort_fn) {
        lemma_lex_transitive(kc, kb, ka);
    }
    if !precedes(b, a, sort_fn) && !precedes(c, b, sort_fn) && precedes(c, a, sort_fn) {
        // c before a, a no later than b: then c before b unless a and b rank the same
        if ka == kb {
        } else {
            lemma_lex_transitive(ka, kc, kb);
            lemma_lex_asymmetric(ka, kb);
            if lex_less(kb, ka) {
            } else {
                lemma_lex_transitive(ka, kb, kc);
                lemma_lex_asymmetric(kc, ka);
            }
        }
    }
}

/// The legacy rank goes field by field: a higher global priority goes first
/// whatever the rest; with equal global priority, the lower share used; then
/// the higher local priority; then the lower build id. Entries equal in all
/// four rank the same.
pub proof fn lemma_legacy_rank_order(a: DispatchEntry, b: DispatchEntry)
    ensures
        a.highest_global_priority > b.highest_global_priority ==> precedes(a, b, StepSortFn::Legacy),
        a.highest_global_priority == b.highest_global_priority && a.lowest_share_used
            < b.lowest_share_used ==> precedes(a, b, StepSortFn::Legacy),
        a.highest_global_priority == b.highest_global_priority && a.lowest_share_used
            == b.lowest_share_used && a.highest_local_priority > b.highest_local_priority
            ==> precedes(a, b, StepSortFn::Legacy),
        a.highest_global_priority == b.highest_global_priority && a.lowest_share_used
            == b.lowest_share_used && a.highest_local_priority == b.highest_local_priority
            && a.lowest_build_id < b.lowest_build_id ==> precedes(a, b, StepSortFn::Legacy),
        a.highest_global_priority == b.highest_global_priority && a.lowest_share_used
            == b.lowest_share_used && a.highest_local_priority == b.highest_local_priority
            && a.lowest_build_id == b.lowest_build_id ==> !precedes(a, b, StepSortFn::Legacy)
            && !precedes(b, a, StepSortFn::Legacy),
{
    lemma_lex_less_4(legacy_key(a), legacy_key(b));
    lemma_lex_less_4(legacy_key(b), legacy_key(a));
}

/// The rank that counts reverse dependencies goes field by field: a higher
/// global priority goes first whatever the rest; then the lower share used;
/// then more reverse dependencies, whatever the local priorities and build
/// ids; then the higher local priority; then the lower build id. Entries
/// equal in all five rank the same.
pub proof fn lemma_rdeps_rank_order(a: DispatchEntry, b: DispatchEntry)
    ensures
        a.highest_global_priority > b.highest_global_priority ==> precedes(
            a,
            b,
            StepSortFn::WithRdeps,
        ),
        a.highest_global_priority == b.highest_global_priority && a.lowest_share_used
            < b.lowest_share_used ==> precedes(a, b, StepSortFn::WithRdeps),
        a.highest_global_priority == b.highest_global_priority && a.lowest_share_used
            == b.lowest_share_used && a.rdeps_count > b.rdeps_count ==> precedes(
            a,
            b,
            StepSortFn::WithRdeps,
        ),
        a.highest_global_priority == b.highest_global_priority && a.lowest_share_used
            == b.lowest_share_used && a.rdeps_count == b.rdeps_count && a.highest_local_priority
            > b.highest_local_priority ==> precedes(a, b, StepSortFn::WithRdeps),
        a.highest_global_priority == b.highest_global_priority && a.lowest_share_used
            == b.lowest_share_used && a.rdeps_count == b.rdeps_count && a.highest_local_priority
            == b.highest_local_priority && a.lowest_build_id < b.lowest_build_id ==> precedes(
            a,
            b,
            StepSortFn::WithRdeps,
        ),
        a.highest_global_priority == b.highest_global_priority && a.lowest_share_used
            == b.lowest_share_used && a.rdeps_count == b.rdeps_count && a.highest_local_priority
            == b.highest_local_priority && a.lowest_build_id == b.lowest_build_id ==> !precedes(
            a,
            b,
            StepSortFn::WithRdeps,
        ) && !precedes(b, a, StepSortFn::WithRdeps),
{
    let ka = rdeps_key(a);
    let kb = rdeps_key(b);
    lemma_lex_less_5(ka, kb);
    lemma_lex_less_5(kb, ka);
    lemma_lex_less_4(ka.drop_first(), kb.drop_first());
    lemma_lex_less_4(kb.drop_first(), ka.drop_first());
}

/// In a sequence sorted for dispatch, under either order, global priorities
/// never rise; and under the order that counts reverse dependencies, among
/// entries of equal global priority and share used, the counts of reverse
/// dependencies never rise.
pub proof fn lemma_sorted_ranks(s: Seq<DispatchEntry>, sort_fn: StepSortFn, i: int, j: int)
    requires
        sorted_for_dispatch(s, sort_fn),
        0 <= i < j < s.len(),
    ensures
        s[i].highest_global_priority >= s[j].highest_global_priority,
        s[i].highest_global_priority == s[j].highest_global_priority ==> s[i].lowest_share_used
            <= s[j].lowest_share_used,
        sort_fn == StepSortFn::WithRdeps && s[i].highest_global_priority
            == s[j].highest_global_priority && s[i].lowest_share_used == s[j].lowest_share_used
            ==> s[i].rdeps_count >= s[j].rdeps_count,
{
    assert(!precedes(s[j], s[i], sort_fn));
    lemma_legacy_rank_order(s[j], s[i]);
    lemma_rdeps_rank_order(s[j], s[i]);
}

// ---------------------------------------------------------------------------
// Sorting the ready steps
// ---------------------------------------------------------------------------

/// `p` is a permutation of the indices `0..n`.
pub open spec fn is_permutation(p: Seq<int>, n: nat) -> bool {
    &&& p.len() == n
    &&& forall|i: int| 0 <= i < n ==> 0 <= #[trigger] p[i] < n
    &&& forall|i: int, j: int| 0 <= i < n && 0 <= j < n && i != j ==> p[i] != p[j]
}

/// No entry of `s` is to be dispatched strictly before an entry ahead of it.
pub open spec fn sorted_for_dispatch(s: Seq<DispatchEntry>, sort_fn: StepSortFn) -> bool {
    forall|i: int, j: int| 0 <= i < j < s.len() ==> !precedes(s[j], s[i], sort_fn)
}

/// `result` is `unsorted` sorted for dispatch by a stable sort: entries that
/// rank the same keep their relative order.
pub open spec fn is_stable_sort(
    result: Seq<DispatchEntry>,
    unsorted: Seq<DispatchEntry>,
    sort_fn: StepSortFn,
) -> bool {
    exists|p: Seq<int>|
        {
            &&& is_permutation(p, unsorted.len())
            &&& result.len() == unsorted.len()
            &&& forall|k: int| 0 <= k < result.len() ==> result[k] == unsorted[#[trigger] p[k]]
            &&& sorted_for_dispatch(result, sort_fn)
            &&& forall|a: int, b: int|
                0 <= a < b < result.len() && entry_key(result[a], sort_fn) == entry_key(
                    result[b],
                    sort_fn,
                ) ==> #[trigger] p[a] < #[trigger] p[b]
        }
}

/// Sorts the ready steps into dispatch order, keeping the order in which
/// entries of the same rank came (as `slice::sort_by` does).
pub fn sort_for_dispatch(entries: &mut Vec<DispatchEntry>, sort_fn: StepSortFn)
    ensures
        is_stable_sort(final(entries)@, old(entries)@, sort_fn),
{
    let ghost orig = entries@;
    let n = entries.len();
    let ghost mut perm: Seq<int> = Seq::new(n as nat, |k: int| k);
    if n == 0 {
        proof {
            assert(is_permutation(perm, 0));
            assert(entries@.len() == 0);
        }
        return;
    }
    let mut i: usize = 1;
    while i < n
        invariant
            n == orig.len(),
            entries@.len() == n,
            1 <= i <= n,
            is_permutation(perm, n as nat),
            forall|k: int| 0 <= k < n ==> entries@[k] == orig[#[trigger] perm[k]],
            forall|k: int| i <= k < n ==> #[trigger] perm[k] == k,
            sorted_for_dispatch(entries@.take(i as int), sort_fn),
            forall|a: int, b: int|
                0 <= a < b < i && entry_key(entries@[a], sort_fn) == entry_key(
                    entries@[b],
                    sort_fn,
                ) ==> #[trigger] perm[a] < #[trigger] perm[b],
        decreases n - i,
    {
        let mut j: usize = i;
        while j > 0 && dispatch_before(&entries[i], &entries[j - 1], sort_fn)
            invariant
                entries@.len() == n,
                i < n,
                j <= i,
                forall|k: int| j <= k < i ==> precedes(entries@[i as int], #[trigger] entries@[k], sort_fn),
            decreases j,
        {
            j = j - 1;
        }
        let ghost old_entries = entries@;
        let ghost old_perm = perm;
        let e = entries.remove(i);
        entries.insert(j, e);
        proof {
            let ni = i as int;
            let nj = j as int;
            perm = old_perm.remove(ni).insert(nj, ni);
            assert(entries@ =~= old_entries.remove(ni).insert(nj, old_entries[ni]));
            // where every entry now sits
            assert forall|k: int| 0 <= k < nj implies #[trigger] entries@[k] == old_entries[k] && perm[k]
                == old_perm[k] by {}
            assert(entries@[nj] == old_entries[ni] && perm[nj] == ni);
            assert forall|k: int| nj < k <= ni implies #[trigger] entries@[k] == old_entries[k - 1]
                && perm[k] == old_perm[k - 1] by {}
            assert forall|k: int| ni < k < n implies #[trigger] entries@[k] == old_entries[k]
                && perm[k] == old_perm[k] by {}
            // the values of the sorted prefix of the permutation are below i
            assert forall|k: int| 0 <= k < ni implies #[trigger] old_perm[k] < ni by {
                if old_perm[k] >= ni {
                    let v = old_perm[k];
                    assert(old_perm[v] == v);
                }
            }
            assert(is_permutation(perm, n as nat)) by {
                assert forall|a: int, b: int| 0 <= a < n && 0 <= b < n && a != b implies perm[a]
                    != perm[b] by {
                    let pa = if a < nj {
                        a
                    } else if a == nj {
                        -1
                    } else if a <= ni {
                        a - 1
                    } else {
                        a
                    };
                    let pb = if b < nj {
                        b
                    } else if b == nj {
                        -1
                    } else if b <= ni {
                        b - 1
                    } else {
                        b
                    };
                    if pa >= 0 && pb >= 0 {
                        assert(pa != pb);
                        assert(perm[a] == old_perm[pa]);
                        assert(perm[b] == old_perm[pb]);
                    } else if pa < 0 && pb >= 0 {
                        assert(perm[b] == old_perm[pb]);
                        assert(old_perm[pb] != old_perm[ni]);
                    } else if pb < 0 && pa >= 0 {
                        assert(perm[a] == old_perm[pa]);
                        assert(old_perm[pa] != old_perm[ni]);
                    }
                }
                assert forall|a: int| 0 <= a < n implies 0 <= #[trigger] perm[a] < n by {
                    if a < nj {
                    } else if a == nj {
                    } else if a <= ni {
                        assert(perm[a] == old_perm[a - 1]);
                    } else {
                    }
                }
            }
            assert forall|k: int| 0 <= k < n implies entries@[k] == orig[#[trigger] perm[k]] by {
                if k < nj {
                } else if k == nj {
                    assert(old_perm[ni] == ni);
                } else if k <= ni {
                    assert(entries@[k] == old_entries[k - 1]);
                } else {
                }
            }
            // the prefix 0..=i is sorted
            assert forall|a: int, b: int|
                #![trigger entries@.take(ni + 1)[a], entries@.take(ni + 1)[b]]
                0 <= a < b < ni + 1 implies !precedes(
                entries@.take(ni + 1)[b],
                entries@.take(ni + 1)[a],
                sort_fn,
            ) by {
                let ea = entries@[a];
                let eb = entries@[b];
                assert(entries@.take(ni + 1)[a] == ea);
                assert(entries@.take(ni + 1)[b] == eb);
                if b < nj || a > nj {
                    let oa = if a < nj { a } else { a - 1 };
                    let ob = if b < nj { b } else { b - 1 };
                    assert(old_entries.take(ni)[oa] == old_entries[oa]);
                    assert(old_entries.take(ni)[ob] == old_entries[ob]);
                } else if b == nj {
                    // ea was ahead of the insertion point, and the inserted entry
                    // does not come before the entry just ahead of the point
                    assert(nj > 0);
                    assert(!precedes(old_entries[ni], old_entries[nj - 1], sort_fn));
                    if a < nj - 1 {
                        assert(old_entries.take(ni)[a] == old_entries[a]);
                        assert(old_entries.take(ni)[nj - 1] == old_entries[nj - 1]);
                        assert(!precedes(old_entries[nj - 1], old_entries[a], sort_fn));
                        lemma_dispatch_order(old_entries[a], old_entries[nj - 1], old_entries[ni], sort_fn);
                    }
                } else if a == nj {
                    assert(precedes(old_entries[ni], old_entries[b - 1], sort_fn));
                    lemma_dispatch_order(old_entries[ni], old_entries[b - 1], old_entries[ni], sort_fn);
                } else {
                    // a < nj < b
                    assert(old_entries.take(ni)[a] == old_entries[a]);
                    assert(old_entries.take(ni)[b - 1] == old_entries[b - 1]);
                }
            }
            // entries of the same rank keep their order
            assert forall|a: int, b: int|
                0 <= a < b < ni + 1 && entry_key(entries@[a], sort_fn) == entry_key(
                    entries@[b],
                    sort_fn,
                ) implies #[trigger] perm[a] < #[trigger] perm[b] by {
                if b < nj || a > nj {
                    let oa = if a < nj { a } else { a - 1 };
                    let ob = if b < nj { b } else { b - 1 };
                    assert(old_perm[oa] < old_perm[ob]);
                } else if b == nj {
                    assert(old_perm[a] < ni);
                } else if a == nj {
                    assert(precedes(old_entries[ni], old_entries[b - 1], sort_fn));
                    lemma_dispatch_order(old_entries[ni], old_entries[b - 1], old_entries[ni], sort_fn);
                    lemma_lex_irreflexive(entry_key(old_entries[ni], sort_fn));
                } else {
                    assert(old_perm[a] < old_perm[b - 1]);
                }
            }
        }
        i = i + 1;
    }
    proof {
        assert(entries@.take(n as int) =~= entries@);
        assert(is_stable_sort(entries@, orig, sort_fn));
    }
}

} // verus!
