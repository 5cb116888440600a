//! The flat tree: rows in display order, where the subtree of a row is the
//! run of deeper rows that follows it. Expanding a directory splices rows
//! in behind it; collapsing it removes its subtree.

use vstd::prelude::*;
use crate::entry::{EntryModel, FileEntry};

verus! {

/// The end of the run of rows deeper than `depth` that starts at `from`:
/// the first position at or after `from` whose row is not deeper, or the
/// length of the sequence.
pub open spec fn run_end(rows: Seq<EntryModel>, depth: nat, from: int) -> int
    decreases rows.len() - from,
{
    if from < 0 || from >= rows.len() {
        from
    } else if rows[from].depth <= depth {
        from
    } else {
        run_end(rows, depth, from + 1)
    }
}

/// The position just behind the subtree of row `i`.
pub open spec fn subtree_end(rows: Seq<EntryModel>, i: int) -> int {
    run_end(rows, rows[i].depth, i + 1)
}

/// Whether row `i` has no subtree: no deeper row follows it directly.
pub open spec fn is_collapsed_at(rows: Seq<EntryModel>, i: int) -> bool {
    subtree_end(rows, i) == i + 1
}

/// The rows without the subtree of row `i`.
pub open spec fn collapsed(rows: Seq<EntryModel>, i: int) -> Seq<EntryModel> {
    rows.take(i + 1) + rows.skip(subtree_end(rows, i))
}

/// The row moved `base` levels down.
pub open spec fn rebased_row(row: EntryModel, base: nat) -> EntryModel {
    EntryModel { depth: row.depth + base, ..row }
}

/// The rows moved `base` levels down.
pub open spec fn rebased(rows: Seq<EntryModel>, base: nat) -> Seq<EntryModel> {
    Seq::new(rows.len(), |k: int| rebased_row(rows[k], base))
}

/// Whether every depth of `rows` still fits the machine word once moved
/// `base` levels down.
pub open spec fn rebase_fits(rows: Seq<EntryModel>, base: nat) -> bool {
    forall|k: int| 0 <= k < rows.len() ==> (#[trigger] rows[k]).depth + base <= usize::MAX
}

/// The rows with `run` spliced in behind row `i`.
pub open spec fn with_run(rows: Seq<EntryModel>, i: int, run: Seq<EntryModel>) -> Seq<EntryModel> {
    rows.take(i + 1) + run + rows.skip(i + 1)
}

/// The rows with the listing of directory `i` spliced in behind it, each
/// child one level below the directory plus its depth in the listing.
pub open spec fn expanded(rows: Seq<EntryModel>, i: int, children: Seq<EntryModel>) -> Seq<
    EntryModel,
> {
    with_run(rows, i, rebased(children, rows[i].depth + 1))
}

/// Whether every row of `run` is deeper than `depth`.
pub open spec fn all_deeper(run: Seq<EntryModel>, depth: nat) -> bool {
    forall|k: int| 0 <= k < run.len() ==> (#[trigger] run[k]).depth > depth
}

/// `run_end` is the one position that ends the run of deeper rows.
pub proof fn lemma_run_end_is(rows: Seq<EntryModel>, depth: nat, from: int, end: int)
    requires
        0 <= from <= end <= rows.len(),
        forall|k: int| from <= k < end ==> (#[trigger] rows[k]).depth > depth,
        end == rows.len() || rows[end].depth <= depth,
    ensures
        run_end(rows, depth, from) == end,
    decreases end - from,
{
    if from < end {
        assert(rows[from].depth > depth);
        lemma_run_end_is(rows, depth, from + 1, end);
    }
}

/// The subtree of a row is made of deeper rows, and the row behind it, if
/// there is one, is not deeper.
pub proof fn lemma_run_end_bounds(rows: Seq<EntryModel>, depth: nat, from: int)
    requires
        0 <= from <= rows.len(),
    ensures
        from <= run_end(rows, depth, from) <= rows.len(),
        forall|k: int| from <= k < run_end(rows, depth, from) ==> (#[trigger] rows[k]).depth > depth,
        run_end(rows, depth, from) == rows.len() || rows[run_end(rows, depth, from)].depth
            <= depth,
    decreases rows.len() - from,
{
    if from < rows.len() && rows[from].depth > depth {
        lemma_run_end_bounds(rows, depth, from + 1);
    }
}

/// Collapsing a directory removes exactly the rows spliced in behind it,
/// whatever they are, as long as all of them are deeper than the directory
/// and the directory had no subtree before.
pub proof fn lemma_collapse_removes_run(rows: Seq<EntryModel>, i: int, run: Seq<EntryModel>)
    requires
        0 <= i < rows.len(),
        is_collapsed_at(rows, i),
        all_deeper(run, rows[i].depth),
    ensures
        collapsed(with_run(rows, i, run), i) == rows,
{
    let grown = with_run(rows, i, run);
    let end = i + 1 + run.len();
    lemma_run_is_the_subtree(rows, i, run);
    assert(grown.take(i + 1) + grown.skip(end) =~= rows);
}

/// Expanding a directory that had no subtree and then collapsing it gives
/// the rows back.
pub proof fn lemma_expand_then_collapse(
    rows: Seq<EntryModel>,
    i: int,
    children: Seq<EntryModel>,
)
    requires
        0 <= i < rows.len(),
        is_collapsed_at(rows, i),
    ensures
        collapsed(expanded(rows, i, children), i) == rows,
        expanded(rows, i, children).len() == rows.len() + children.len(),
{
    lemma_collapse_removes_run(rows, i, rebased(children, rows[i].depth + 1));
}

/// Expanding a row inside a run of rows deeper than row `i` leaves a run
/// of rows deeper than row `i`: the rows are still the ones from before
/// with one run spliced in behind row `i`.
pub proof fn lemma_expand_inside_run(
    rows: Seq<EntryModel>,
    i: int,
    run: Seq<EntryModel>,
    j: int,
    children: Seq<EntryModel>,
) -> (grown_run: Seq<EntryModel>)
    requires
        0 <= i < rows.len(),
        all_deeper(run, rows[i].depth),
        i < j <= i + run.len(),
    ensures
        expanded(with_run(rows, i, run), j, children) == with_run(rows, i, grown_run),
        all_deeper(grown_run, rows[i].depth),
        grown_run.len() == run.len() + children.len(),
{
    let grown = with_run(rows, i, run);
    let at = j - i - 1;
    assert(grown[j] == run[at]);
    let inner = rebased(children, run[at].depth + 1);
    let grown_run = run.take(at + 1) + inner + run.skip(at + 1);
    assert(expanded(grown, j, children) =~= with_run(rows, i, grown_run));
    assert forall|k: int| 0 <= k < grown_run.len() implies (#[trigger] grown_run[k]).depth
        > rows[i].depth by {
        if k <= at {
            assert(grown_run[k] == run[k]);
        } else if k <= at + inner.len() {
            assert(grown_run[k] == inner[k - at - 1]);
        } else {
            assert(grown_run[k] == run[k - inner.len()]);
        }
    }
    grown_run
}

/// Collapsing a row inside a run of rows deeper than row `i` leaves a run
/// of rows deeper than row `i`.
pub proof fn lemma_collapse_inside_run(
    rows: Seq<EntryModel>,
    i: int,
    run: Seq<EntryModel>,
    j: int,
) -> (shrunk_run: Seq<EntryModel>)
    requires
        0 <= i < rows.len(),
        is_collapsed_at(rows, i),
        all_deeper(run, rows[i].depth),
        i < j <= i + run.len(),
    ensures
        collapsed(with_run(rows, i, run), j) == with_run(rows, i, shrunk_run),
        all_deeper(shrunk_run, rows[i].depth),
        shrunk_run.len() <= run.len(),
{
    let grown = with_run(rows, i, run);
    let at = j - i - 1;
    let run_stop = i + 1 + run.len();
    assert(grown[j] == run[at]);
    let end = subtree_end(grown, j);
    lemma_run_end_bounds(grown, grown[j].depth, j + 1);
    lemma_run_end_bounds(rows, rows[i].depth, i + 1);
    // The subtree of an inner row ends inside the run: the row behind the
    // run, if there is one, is no deeper than row `i`.
    if end > run_stop {
        assert(grown[run_stop] == rows[i + 1]);
        assert(grown[run_stop].depth > grown[j].depth);
    }
    let shrunk_run = run.take(at + 1) + run.skip(end - i - 1);
    assert(collapsed(grown, j) =~= with_run(rows, i, shrunk_run));
    assert forall|k: int| 0 <= k < shrunk_run.len() implies (#[trigger] shrunk_run[k]).depth
        > rows[i].depth by {
        if k <= at {
            assert(shrunk_run[k] == run[k]);
        } else {
            assert(shrunk_run[k] == run[k + (end - i - 1) - (at + 1)]);
        }
    }
    shrunk_run
}

/// Expanding a directory, expanding one of the rows spliced in behind it,
/// and then collapsing the directory gives the rows back: collapsing a
/// parent removes all of its descendants.
pub proof fn lemma_nested_expand_then_collapse(
    rows: Seq<EntryModel>,
    i: int,
    children: Seq<EntryModel>,
    j: int,
    grandchildren: Seq<EntryModel>,
)
    requires
        0 <= i < rows.len(),
        is_collapsed_at(rows, i),
        i < j <= i + children.len(),
    ensures
        collapsed(expanded(expanded(rows, i, children), j, grandchildren), i) == rows,
{
    let run = rebased(children, rows[i].depth + 1);
    let grown_run = lemma_expand_inside_run(rows, i, run, j, grandchildren);
    lemma_collapse_removes_run(rows, i, grown_run);
}

/// A step on the tree: the listing of the directory at `at` is spliced in
/// behind it, or the subtree of the row at `at` is removed.
pub ghost enum TreeStep {
    Expand { at: int, children: Seq<EntryModel> },
    Collapse { at: int },
}

impl TreeStep {
    /// The row that the step is taken on.
    pub open spec fn position(self) -> int {
        match self {
            TreeStep::Expand { at, .. } => at,
            TreeStep::Collapse { at } => at,
        }
    }

    /// The rows after the step.
    pub open spec fn apply(self, rows: Seq<EntryModel>) -> Seq<EntryModel> {
        match self {
            TreeStep::Expand { at, children } => expanded(rows, at, children),
            TreeStep::Collapse { at } => collapsed(rows, at),
        }
    }
}

/// The rows after the steps, taken in order, of which each is taken only
/// if its row then lies in the subtree of row `i`.
pub open spec fn steps_inside(rows: Seq<EntryModel>, i: int, steps: Seq<TreeStep>) -> Seq<
    EntryModel,
>
    decreases steps.len(),
{
    if steps.len() == 0 {
        rows
    } else {
        let before = steps_inside(rows, i, steps.drop_last());
        let at = steps.last().position();
        if i < at < subtree_end(before, i) {
            steps.last().apply(before)
        } else {
            before
        }
    }
}

/// A run of deeper rows behind a row without a subtree is that row's
/// subtree.
pub proof fn lemma_run_is_the_subtree(rows: Seq<EntryModel>, i: int, run: Seq<EntryModel>)
    requires
        0 <= i < rows.len(),
        is_collapsed_at(rows, i),
        all_deeper(run, rows[i].depth),
    ensures
        subtree_end(with_run(rows, i, run), i) == i + 1 + run.len(),
{
    let grown = with_run(rows, i, run);
    let d = rows[i].depth;
    let end = i + 1 + run.len();
    lemma_run_end_bounds(rows, d, i + 1);
    assert(grown[i] == rows[i]);
    assert forall|k: int| i + 1 <= k < end implies (#[trigger] grown[k]).depth > d by {
        assert(grown[k] == run[k - i - 1]);
    }
    if end < grown.len() {
        assert(grown[end] == rows[i + 1]);
    }
    lemma_run_end_is(grown, d, i + 1, end);
}

/// Whatever is expanded and collapsed inside the subtree of a directory,
/// the rows stay the ones from before with one run of deeper rows behind
/// the directory.
pub proof fn lemma_steps_inside_keep_a_run(
    rows: Seq<EntryModel>,
    i: int,
    run: Seq<EntryModel>,
    steps: Seq<TreeStep>,
) -> (last_run: Seq<EntryModel>)
    requires
        0 <= i < rows.len(),
        is_collapsed_at(rows, i),
        all_deeper(run, rows[i].depth),
    ensures
        steps_inside(with_run(rows, i, run), i, steps) == with_run(rows, i, last_run),
        all_deeper(last_run, rows[i].depth),
    decreases steps.len(),
{
    if steps.len() == 0 {
        run
    } else {
        let run_before = lemma_steps_inside_keep_a_run(rows, i, run, steps.drop_last());
        let before = with_run(rows, i, run_before);
        lemma_run_is_the_subtree(rows, i, run_before);
        let at = steps.last().position();
        if i < at < subtree_end(before, i) {
            match steps.last() {
                TreeStep::Expand { at, children } => lemma_expand_inside_run(
                    rows,
                    i,
                    run_before,
                    at,
                    children,
                ),
                TreeStep::Collapse { at } => lemma_collapse_inside_run(rows, i, run_before, at),
            }
        } else {
            run_before
        }
    }
}

/// Expanding a directory that had no subtree, then expanding and
/// collapsing whatever lies inside it, in any order and any number of times,
/// and then collapsing the directory gives the rows back.
pub proof fn lemma_collapse_undoes_all_inside(
    rows: Seq<EntryModel>,
    i: int,
    children: Seq<EntryModel>,
    steps: Seq<TreeStep>,
)
    requires
        0 <= i < rows.len(),
        is_collapsed_at(rows, i),
    ensures
        collapsed(steps_inside(expanded(rows, i, children), i, steps), i) == rows,
{
    let run = rebased(children, rows[i].depth + 1);
    let last_run = lemma_steps_inside_keep_a_run(rows, i, run, steps);
    lemma_collapse_removes_run(rows, i, last_run);
}

/// Collapsing a row twice is collapsing it once.
pub proof fn lemma_collapse_idempotent(rows: Seq<EntryModel>, i: int)
    requires
        0 <= i < rows.len(),
    ensures
        is_collapsed_at(collapsed(rows, i), i),
        collapsed(collapsed(rows, i), i) == collapsed(rows, i),
{
    let d = rows[i].depth;
    let end = subtree_end(rows, i);
    lemma_run_end_bounds(rows, d, i + 1);
    let once = collapsed(rows, i);
    assert(once[i] == rows[i]);
    if i + 1 < once.len() {
        assert(once[i + 1] == rows[end]);
    }
    lemma_run_end_is(once, d, i + 1, i + 1);
    assert(once.take(i + 1) + once.skip(i + 1) =~= once);
}

/// The position just behind the subtree of row `start`; the number of
/// rows where there is no such row.
pub fn subtree_end_of(files: &Vec<FileEntry>, start: usize) -> (end: usize)
    ensures
        start < files.len() ==> end == subtree_end(files.deep_view(), start as int),
        start < files.len() ==> start < end <= files.len(),
        start >= files.len() ==> end == files.len(),
{
    if start >= files.len() {
        return files.len();
    }
    let ghost rows = files.deep_view();
    let depth = files[start].depth;
    let mut end: usize = start + 1;
    while end < files.len() && files[end].depth > depth
        invariant
            start < end <= files.len(),
            rows == files.deep_view(),
            depth == rows[start as int].depth,
            forall|k: int| start < k < end ==> (#[trigger] rows[k]).depth > depth,
        decreases files.len() - end,
    {
        end += 1;
    }
    proof {
        lemma_run_end_is(rows, depth as nat, start + 1, end as int);
    }
    end
}

/// Removes the subtree of row `start`. Without such a row nothing changes.
pub fn collapse_rows(files: &mut Vec<FileEntry>, start: usize)
    ensures
        start < old(files).len() ==> final(files).deep_view() == collapsed(
            old(files).deep_view(),
            start as int,
        ),
        start >= old(files).len() ==> final(files).deep_view() == old(files).deep_view(),
{
    if start >= files.len() {
        return ;
    }
    let ghost rows = files.deep_view();
    let end = subtree_end_of(files, start);
    let mut tail = files.split_off(end);
    files.truncate(start + 1);
    files.append(&mut tail);
    assert(files.deep_view() =~= rows.take(start + 1) + rows.skip(end as int));
}

/// Moves every row `base` levels down; gives the rows back unchanged, as
/// an error, where a depth would no longer fit the machine word.
pub fn rebase_rows(children: Vec<FileEntry>, base: usize) -> (moved: Result<
    Vec<FileEntry>,
    Vec<FileEntry>,
>)
    ensures
        match moved {
            Ok(rows) => rebase_fits(children.deep_view(), base as nat) && rows.deep_view()
                == rebased(children.deep_view(), base as nat),
            Err(rows) => !rebase_fits(children.deep_view(), base as nat) && rows == children,
        },
{
    let mut i: usize = 0;
    while i < children.len()
        invariant
            i <= children.len(),
            forall|k: int| 0 <= k < i ==> (#[trigger] children.deep_view()[k]).depth + base
                <= usize::MAX,
        decreases children.len() - i,
    {
        if children[i].depth > usize::MAX - base {
            assert(children.deep_view()[i as int].depth + base > usize::MAX);
            return Err(children);
        }
        i += 1;
    }
    let ghost all = children.deep_view();
    let mut rest = children;
    let mut moved: Vec<FileEntry> = Vec::new();
    // Rows come off the end; `moved` holds them in reverse until the last
    // step puts them back in order.
    while rest.len() > 0
        invariant
            rest.len() <= all.len(),
            rebase_fits(all, base as nat),
            rest.deep_view() == all.take(rest.len() as int),
            moved.len() == all.len() - rest.len(),
            forall|k: int|
                0 <= k < moved.len() ==> (#[trigger] moved.deep_view()[k]) == rebased_row(
                    all[all.len() - 1 - k],
                    base as nat,
                ),
        decreases rest.len(),
    {
        let ghost before = rest.deep_view();
        let ghost last = rest@.last();
        let ghost moved_before = moved.deep_view();
        let row = rest.pop().unwrap();
        proof {
            assert(rest.deep_view() =~= before.drop_last());
            assert(last@ == before[before.len() - 1]);
            assert(before[before.len() - 1] == all[before.len() - 1]);
            assert(row@ == all[rest.len() as int]);
        }
        let lowered = FileEntry {
            name: row.name,
            status: row.status,
            is_dir: row.is_dir,
            parent: row.parent,
            depth: row.depth + base,
        };
        moved.push(lowered);
        proof {
            assert(moved.deep_view() =~= moved_before.push(lowered@));
            assert(rest.deep_view() =~= all.take(rest.len() as int));
        }
    }
    let mut ordered: Vec<FileEntry> = Vec::new();
    while moved.len() > 0
        invariant
            moved.len() <= all.len(),
            ordered.len() == all.len() - moved.len(),
            forall|k: int|
                0 <= k < moved.len() ==> (#[trigger] moved.deep_view()[k]) == rebased_row(
                    all[all.len() - 1 - k],
                    base as nat,
                ),
            forall|k: int|
                0 <= k < ordered.len() ==> (#[trigger] ordered.deep_view()[k]) == rebased_row(
                    all[k],
                    base as nat,
                ),
        decreases moved.len(),
    {
        let ghost before = moved.deep_view();
        let ghost last = moved@.last();
        let ghost ordered_before = ordered.deep_view();
        let row = moved.pop().unwrap();
        proof {
            assert(moved.deep_view() =~= before.drop_last());
            assert(last@ == before[before.len() - 1]);
            assert(row@ == before[before.len() - 1]);
        }
        ordered.push(row);
        proof {
            assert(ordered.deep_view() =~= ordered_before.push(row@));
        }
    }
    assert(ordered.deep_view() =~= rebased(all, base as nat));
    Ok(ordered)
}

} // verus!
