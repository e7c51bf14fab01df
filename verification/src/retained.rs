use vstd::prelude::*;

verus! {

/// A draw waiting for submission: the material's key, the geometry's key and
/// the slot of the mesh that asked for it.
pub type DrawItem = (u64, u64, usize);

/// One instanced draw call: every item in `start..end` of the sorted list
/// shares this material and geometry, and their instance data sits at the
/// same positions of the instance buffer.
#[derive(Clone, Copy, PartialEq, Eq, Structural, Debug)]
pub struct DrawRun {
    pub material: u64,
    pub geometry: u64,
    pub start: usize,
    pub end: usize,
}

/// Lexicographic order of draw items, the one their tuple type has.
pub open spec fn item_le(a: DrawItem, b: DrawItem) -> bool {
    a.0 < b.0 || (a.0 == b.0 && (a.1 < b.1 || (a.1 == b.1 && a.2 <= b.2)))
}

/// The items are in lexicographic order.
pub open spec fn items_sorted(s: Seq<DrawItem>) -> bool {
    forall|i: int, j: int| 0 <= i <= j < s.len() ==> item_le(#[trigger] s[i], #[trigger] s[j])
}

/// `run` is a non-empty stretch of `s` whose items all have its material
/// and geometry.
pub open spec fn is_run_of(s: Seq<DrawItem>, run: DrawRun) -> bool {
    &&& run.start < run.end <= s.len()
    &&& forall|i: int|
        run.start <= i < run.end ==> (#[trigger] s[i]).0 == run.material && s[i].1 == run.geometry
}

/// Whether two runs draw with the same material and geometry.
pub open spec fn same_pair(a: DrawRun, b: DrawRun) -> bool {
    a.material == b.material && a.geometry == b.geometry
}

/// `runs` cuts `s` into its maximal stretches of equal (material, geometry):
/// the runs follow one another from the first item to the last, and two
/// neighbouring runs differ in material or geometry.
pub open spec fn maximal_runs(s: Seq<DrawItem>, runs: Seq<DrawRun>) -> bool {
    &&& (runs.len() == 0 <==> s.len() == 0)
    &&& runs.len() > 0 ==> runs[0].start == 0 && runs[runs.len() - 1].end == s.len()
    &&& forall|k: int| 0 <= k < runs.len() ==> is_run_of(s, #[trigger] runs[k])
    &&& forall|k: int| 0 <= k < runs.len() - 1 ==> (#[trigger] runs[k]).end == runs[k + 1].start
    &&& forall|k: int| 0 <= k < runs.len() - 1 ==> !same_pair(#[trigger] runs[k], runs[k + 1])
}

/// Sorts the items with `slice::sort_unstable`, which orders a slice of
/// tuples lexicographically. The contract claims what its documentation
/// states: afterwards the items are in order and are the same items.
#[verifier::external_body]
fn sort_items(items: &mut Vec<DrawItem>)
    ensures
        final(items)@.to_multiset() == old(items)@.to_multiset(),
        items_sorted(final(items)@),
{
    items.sort_unstable();
}

/// Cut a list of draw items into maximal runs of equal material and
/// geometry, each of which becomes one instanced draw call.
pub fn draw_runs(items: &Vec<DrawItem>) -> (runs: Vec<DrawRun>)
    ensures
        maximal_runs(items@, runs@),
{
    let n = items.len();
    let mut runs: Vec<DrawRun> = Vec::new();
    let mut start: usize = 0;
    while start < n
        invariant
            n == items.len(),
            start <= n,
            runs.len() == 0 <==> start == 0,
            runs.len() > 0 ==> runs[0].start == 0 && runs[runs.len() - 1].end == start,
            forall|k: int| 0 <= k < runs.len() ==> is_run_of(items@, #[trigger] runs[k]),
            forall|k: int|
                0 <= k < runs.len() - 1 ==> (#[trigger] runs[k]).end == runs[k + 1].start,
            forall|k: int| 0 <= k < runs.len() - 1 ==> !same_pair(#[trigger] runs[k], runs[k + 1]),
            runs.len() > 0 && start < n ==> !(items[start as int].0 == runs[runs.len() - 1].material
                && items[start as int].1 == runs[runs.len() - 1].geometry),
        decreases n - start,
    {
        let m = items[start].0;
        let g = items[start].1;
        let mut end: usize = start + 1;
        while end < n && items[end].0 == m && items[end].1 == g
            invariant
                n == items.len(),
                start < end <= n,
                m == items[start as int].0,
                g == items[start as int].1,
                forall|i: int| start <= i < end ==> (#[trigger] items[i]).0 == m && items[i].1 == g,
            decreases n - end,
        {
            end = end + 1;
        }
        let run = DrawRun { material: m, geometry: g, start, end };
        let ghost before = runs@;
        runs.push(run);
        proof {
            assert(runs@ == before.push(run));
            assert(is_run_of(items@, run));
            if before.len() > 0 {
                assert(!same_pair(before[before.len() - 1], run));
            }
        }
        start = end;
    }
    runs
}

/// Put the draws in submission order and cut them into instanced draw calls:
/// the items sorted by (material, geometry, slot), and their maximal runs of
/// one material and geometry.
pub fn plan_draws(items: Vec<DrawItem>) -> (r: (Vec<DrawItem>, Vec<DrawRun>))
    ensures
        r.0@.to_multiset() == items@.to_multiset(),
        items_sorted(r.0@),
        maximal_runs(r.0@, r.1@),
{
    let mut sorted = items;
    sort_items(&mut sorted);
    let runs = draw_runs(&sorted);
    (sorted, runs)
}

/// Material and geometry taken together, ordered lexicographically.
pub open spec fn pair_lt(a: DrawRun, b: DrawRun) -> bool {
    a.material < b.material || (a.material == b.material && a.geometry < b.geometry)
}

proof fn lemma_runs_increase(s: Seq<DrawItem>, runs: Seq<DrawRun>, k1: int, k2: int)
    requires
        items_sorted(s),
        maximal_runs(s, runs),
        0 <= k1 < k2 < runs.len(),
    ensures
        pair_lt(runs[k1], runs[k2]),
    decreases k2 - k1,
{
    let k = k2 - 1;
    assert(is_run_of(s, runs[k]));
    assert(is_run_of(s, runs[k2]));
    assert(runs[k].end == runs[k + 1].start);
    assert(!same_pair(runs[k], runs[k + 1]));
    let last = runs[k].end - 1;
    let first = runs[k2].start as int;
    assert(last < first);
    assert(item_le(s[last], s[first]));
    assert(s[last].0 == runs[k].material && s[last].1 == runs[k].geometry);
    assert(s[first].0 == runs[k2].material && s[first].1 == runs[k2].geometry);
    assert(pair_lt(runs[k], runs[k2]));
    if k1 < k {
        lemma_runs_increase(s, runs, k1, k);
    }
}

/// Once the items are sorted, every (material, geometry) pair is drawn by
/// exactly one call: the runs' pairs strictly increase, so no two runs
/// share one.
pub proof fn lemma_sorted_runs_are_distinct(s: Seq<DrawItem>, runs: Seq<DrawRun>)
    requires
        items_sorted(s),
        maximal_runs(s, runs),
    ensures
        forall|k1: int, k2: int|
            0 <= k1 < k2 < runs.len() ==> pair_lt(#[trigger] runs[k1], #[trigger] runs[k2]),
        forall|k1: int, k2: int|
            0 <= k1 < runs.len() && 0 <= k2 < runs.len() && k1 != k2 ==> !same_pair(
                #[trigger] runs[k1],
                #[trigger] runs[k2],
            ),
{
    assert forall|k1: int, k2: int| 0 <= k1 < k2 < runs.len() implies pair_lt(
        #[trigger] runs[k1],
        #[trigger] runs[k2],
    ) by {
        lemma_runs_increase(s, runs, k1, k2);
    }
}

/// Every item lies in exactly one run: the runs tile the list.
pub proof fn lemma_runs_tile(s: Seq<DrawItem>, runs: Seq<DrawRun>, i: int)
    requires
        maximal_runs(s, runs),
        0 <= i < s.len(),
    ensures
        exists|k: int| 0 <= k < runs.len() && (#[trigger] runs[k]).start <= i < runs[k].end,
        forall|k1: int, k2: int|
            0 <= k1 < runs.len() && 0 <= k2 < runs.len() && (#[trigger] runs[k1]).start <= i
                < runs[k1].end && (#[trigger] runs[k2]).start <= i < runs[k2].end ==> k1 == k2,
{
    lemma_runs_ordered(s, runs);
    lemma_find_run(s, runs, i, runs.len() - 1);
}

proof fn lemma_runs_ordered(s: Seq<DrawItem>, runs: Seq<DrawRun>)
    requires
        maximal_runs(s, runs),
    ensures
        forall|k1: int, k2: int|
            0 <= k1 < k2 < runs.len() ==> (#[trigger] runs[k1]).end <= (#[trigger] runs[k2]).start,
{
    assert forall|k1: int, k2: int| 0 <= k1 < k2 < runs.len() implies (
    #[trigger] runs[k1]).end <= (#[trigger] runs[k2]).start by {
        lemma_run_end_before(s, runs, k1, k2);
    }
}

proof fn lemma_run_end_before(s: Seq<DrawItem>, runs: Seq<DrawRun>, k1: int, k2: int)
    requires
        maximal_runs(s, runs),
        0 <= k1 < k2 < runs.len(),
    ensures
        runs[k1].end <= runs[k2].start,
    decreases k2 - k1,
{
    assert(runs[k2 - 1].end == runs[k2].start);
    if k1 < k2 - 1 {
        lemma_run_end_before(s, runs, k1, k2 - 1);
        assert(is_run_of(s, runs[k2 - 1]));
    }
}

proof fn lemma_find_run(s: Seq<DrawItem>, runs: Seq<DrawRun>, i: int, k: int)
    requires
        maximal_runs(s, runs),
        0 <= i < s.len(),
        0 <= k < runs.len(),
        i < runs[k].end,
    ensures
        exists|j: int| 0 <= j <= k && (#[trigger] runs[j]).start <= i < runs[j].end,
    decreases k,
{
    assert(is_run_of(s, runs[k]));
    if i < runs[k].start {
        assert(k > 0);
        assert(runs[k - 1].end == runs[k].start);
        lemma_find_run(s, runs, i, k - 1);
    } else {
        assert(runs[k].start <= i < runs[k].end);
    }
}

} // verus!
