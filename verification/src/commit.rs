//! The commit pipeline's choice of what to stage: everything that is not
//! current, untracked paths included.

use vstd::prelude::*;
use vstd::string::*;
use crate::status::FileStatus;
use crate::tree::{Candidate, StatusRecord};

verus! {

/// The path of a candidate, if it carries a change.
pub open spec fn changed_path(c: Candidate) -> Option<Seq<char>> {
    if c.status != FileStatus::Current {
        Some(c.path)
    } else {
        None
    }
}

/// The paths to add to the index: those of the records that carry a
/// change, in the order of the records.
pub open spec fn paths_to_stage(statuses: Seq<Candidate>) -> Seq<Seq<char>> {
    statuses.filter_map(|c: Candidate| changed_path(c))
}

/// A path is staged exactly when a record reports a change of it.
pub proof fn lemma_staged_iff_changed(statuses: Seq<Candidate>, path: Seq<char>)
    ensures
        paths_to_stage(statuses).contains(path) <==> exists|i: int|
            0 <= i < statuses.len() && (#[trigger] statuses[i]).path == path && statuses[i].status
                != FileStatus::Current,
    decreases statuses.len(),
{
    let f = |c: Candidate| changed_path(c);
    if statuses.len() > 0 {
        let front = statuses.drop_last();
        let last = statuses.last();
        lemma_staged_iff_changed(front, path);
        let staged_front = paths_to_stage(front);
        let staged = paths_to_stage(statuses);
        if paths_to_stage(front).contains(path) {
            let k = choose|k: int| 0 <= k < staged_front.len() && staged_front[k] == path;
            assert(staged[k] == path);
            let i = choose|i: int|
                0 <= i < front.len() && (#[trigger] front[i]).path == path && front[i].status
                    != FileStatus::Current;
            assert(statuses[i] == front[i]);
        }
        if last.status != FileStatus::Current && last.path == path {
            assert(staged == staged_front + seq![path]);
            assert(staged[staged.len() - 1] == path);
            assert(statuses[statuses.len() - 1] == last);
        }
        if staged.contains(path) && !staged_front.contains(path) {
            let k = choose|k: int| 0 <= k < staged.len() && staged[k] == path;
            if k < staged_front.len() {
                assert(staged_front[k] == path);
            }
            assert(statuses[statuses.len() - 1] == last);
        }
        if exists|i: int|
            0 <= i < statuses.len() && (#[trigger] statuses[i]).path == path && statuses[i].status
                != FileStatus::Current {
            let i = choose|i: int|
                0 <= i < statuses.len() && (#[trigger] statuses[i]).path == path
                    && statuses[i].status != FileStatus::Current;
            if i < front.len() {
                assert(front[i] == statuses[i]);
            }
        }
    }
}

/// Chooses the paths to add to the index: every reported path that is not
/// current.
pub fn stage_all_modified(statuses: &Vec<StatusRecord>) -> (paths: Vec<String>)
    ensures
        paths.deep_view() == paths_to_stage(statuses.deep_view()),
{
    let mut paths: Vec<String> = Vec::new();
    let ghost all = statuses.deep_view();
    let ghost f = |c: Candidate| changed_path(c);
    let mut i: usize = 0;
    assert(all.take(0) =~= Seq::<Candidate>::empty());
    assert(paths.deep_view() =~= Seq::<Seq<char>>::empty());
    while i < statuses.len()
        invariant
            i <= statuses.len(),
            all == statuses.deep_view(),
            f == |c: Candidate| changed_path(c),
            paths.deep_view() == all.take(i as int).filter_map(f),
        decreases statuses.len() - i,
    {
        let record = &statuses[i];
        proof {
            all.lemma_filter_map_take_succ(f, i as int);
            assert(all[i as int] == record@);
        }
        if FileStatus::from_bits(record.flags).is_changed() {
            let ghost before = paths.deep_view();
            paths.push(record.path.clone());
            assert(paths.deep_view() =~= before + seq![record.path@]);
        }
        i += 1;
    }
    assert(all.take(statuses.len() as int) =~= all);
    paths
}

} // verus!
