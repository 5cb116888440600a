//! The scan of a directory tree, one directory at a time: the scan says
//! which directory to read next, and is told what was found in it.
//!
//! A lookup answers for one path. For a directory that holds anything it
//! fails, since the directory names more than one path. Where it failed, the
//! files inside speak for the directory when the scan is finished: with
//! files inside and none of them new, the directory holds nothing new and is
//! current. With a new file inside, or with no file inside, the failed lookup
//! stands.

use vstd::prelude::*;
use vstd::string::*;
use crate::entry::EntryModel;
use crate::path::{below, holds_path, holds_path_in, segments, split_path};
use crate::status::{classify_lookup, lemma_current_iff_no_change_flag, FileStatus};
use crate::tree::{
    is_file_list, lemma_nothing_changed_nothing_listed, Candidate, ScanRecord, Scanned,
};

verus! {

/// What reading a directory gives for one of its children.
#[derive(Clone, Debug)]
pub struct DirChild {
    /// The name of the child inside the directory.
    pub name: String,
    pub is_dir: bool,
    /// The flag word of a status lookup for the child; absent where the
    /// lookup failed.
    pub flags: Option<u32>,
}

pub ghost struct DirChildModel {
    pub name: Seq<char>,
    pub is_dir: bool,
    pub flags: Option<u32>,
}

impl View for DirChild {
    type V = DirChildModel;

    open spec fn view(&self) -> DirChildModel {
        DirChildModel { name: self.name@, is_dir: self.is_dir, flags: self.flags }
    }
}

impl DeepView for DirChild {
    type V = DirChildModel;

    open spec fn deep_view(&self) -> DirChildModel {
        self@
    }
}

/// A scan in progress.
pub struct Scan {
    /// The directories still to read, as paths relative to the root.
    pub pending: Vec<String>,
    /// What was found so far.
    pub found: Vec<ScanRecord>,
    /// The path that the scan leaves out: the repository's own directory,
    /// which is no part of the working tree.
    pub skipped: String,
}

pub ghost struct ScanModel {
    pub pending: Seq<Seq<char>>,
    pub found: Seq<Scanned>,
    pub skipped: Seq<char>,
}

impl View for Scan {
    type V = ScanModel;

    open spec fn view(&self) -> ScanModel {
        ScanModel {
            pending: self.pending.deep_view(),
            found: self.found.deep_view(),
            skipped: self.skipped@,
        }
    }
}

/// The path of a child of the directory `dir`; the directory with the
/// empty path is the root.
pub open spec fn child_path(dir: Seq<char>, name: Seq<char>) -> Seq<char> {
    if dir.len() == 0 {
        name
    } else {
        dir.push('/') + name
    }
}

impl ScanModel {
    /// The scan after one child of `dir` was seen: the child is found
    /// under its path, with what its lookup gave, and a directory is still
    /// to read. The child at the path that the scan leaves out is passed
    /// over.
    pub open spec fn see(self, dir: Seq<char>, child: DirChildModel) -> ScanModel {
        let path = child_path(dir, child.name);
        if path == self.skipped {
            self
        } else {
            ScanModel {
                found: self.found.push(
                    Scanned { path, flags: child.flags, is_dir: child.is_dir },
                ),
                pending: if child.is_dir {
                    self.pending.push(path)
                } else {
                    self.pending
                },
                ..self
            }
        }
    }

    /// The scan after the children of `dir` were seen, in order.
    pub open spec fn read(self, dir: Seq<char>, children: Seq<DirChildModel>) -> ScanModel
        decreases children.len(),
    {
        if children.len() == 0 {
            self
        } else {
            self.read(dir, children.drop_last()).see(dir, children.last())
        }
    }
}

/// The components of the path of a scanned file; with `only_new`, of one
/// whose lookup gives a new path or failed.
pub open spec fn file_path(r: Scanned, only_new: bool) -> Option<Seq<Seq<char>>> {
    if !r.is_dir && (!only_new || classify_lookup(r.flags) == FileStatus::New) {
        Some(segments(r.path))
    } else {
        None
    }
}

/// The paths of the scanned files, by their components; with `only_new`,
/// of the new ones.
pub open spec fn file_parts(found: Seq<Scanned>, only_new: bool) -> Seq<Seq<Seq<char>>> {
    found.filter_map(|r: Scanned| file_path(r, only_new))
}

/// Whether the files inside speak for the directory: its lookup failed,
/// there are files inside it, and none of them is new.
pub open spec fn holds_nothing_new(r: Scanned, found: Seq<Scanned>) -> bool {
    &&& r.is_dir
    &&& r.flags is None
    &&& holds_path(segments(r.path), file_parts(found, false))
    &&& !holds_path(segments(r.path), file_parts(found, true))
}

/// The outcome of the lookup for a path once the scan is finished: for a
/// directory that holds nothing new, the flag word without a flag; for every
/// other path, what its own lookup gave.
pub open spec fn settled_flags(r: Scanned, found: Seq<Scanned>) -> Option<u32> {
    if holds_nothing_new(r, found) {
        Some(0u32)
    } else {
        r.flags
    }
}

/// What the scan found, each path with its settled lookup.
pub open spec fn settled(found: Seq<Scanned>) -> Seq<Scanned> {
    Seq::new(
        found.len(),
        |i: int|
            Scanned {
                path: found[i].path,
                flags: settled_flags(found[i], found),
                is_dir: found[i].is_dir,
            },
    )
}

/// Settling changes no path and no file: only the failed lookup of a
/// directory that holds nothing new becomes current, and a directory that is
/// empty or holds a new file stays new.
pub proof fn lemma_settled_changes_directories_only(found: Seq<Scanned>, i: int)
    requires
        0 <= i < found.len(),
    ensures
        settled(found).len() == found.len(),
        settled(found)[i].path == found[i].path,
        settled(found)[i].is_dir == found[i].is_dir,
        !found[i].is_dir || found[i].flags is Some ==> settled(found)[i] == found[i],
        holds_nothing_new(found[i], found) ==> classify_lookup(settled(found)[i].flags)
            == FileStatus::Current,
        !holds_nothing_new(found[i], found) ==> settled(found)[i] == found[i],
{
    lemma_current_iff_no_change_flag(0u32);
    assert(0u32 & 0x8f9fu32 == 0) by (bit_vector);
}

/// A working tree without changes lists nothing, directories included:
/// where every path that the status source reports and every scanned file
/// is current, and every scanned directory is current or holds a file, the
/// listing built from the finished scan is empty.
pub proof fn lemma_unchanged_tree_lists_nothing(
    rows: Seq<EntryModel>,
    scope: Seq<char>,
    statuses: Seq<Candidate>,
    found: Seq<Scanned>,
)
    requires
        is_file_list(rows, scope, statuses, settled(found)),
        forall|i: int|
            0 <= i < statuses.len() ==> (#[trigger] statuses[i]).status == FileStatus::Current,
        forall|j: int|
            0 <= j < found.len() && !(#[trigger] found[j]).is_dir ==> classify_lookup(
                found[j].flags,
            ) == FileStatus::Current,
        forall|j: int|
            0 <= j < found.len() && (#[trigger] found[j]).is_dir ==> classify_lookup(
                found[j].flags,
            ) == FileStatus::Current || (found[j].flags is None && holds_path(
                segments(found[j].path),
                file_parts(found, false),
            )),
    ensures
        rows == Seq::<EntryModel>::empty(),
{
    let f = |r: Scanned| file_path(r, true);
    let news = file_parts(found, true);
    // No scanned file is new.
    assert(news.len() == 0) by {
        if news.len() > 0 {
            assert(news.contains(news[0]));
            found.lemma_filter_map_contains(f, news[0]);
            let t = choose|t: Scanned| #[trigger] found.contains(t) && f(t) == Some(news[0]);
            let j = choose|j: int| 0 <= j < found.len() && found[j] == t;
            assert(!found[j].is_dir);
        }
    }
    assert forall|j: int| 0 <= j < settled(found).len() implies classify_lookup(
        (#[trigger] settled(found)[j]).flags,
    ) == FileStatus::Current by {
        lemma_settled_changes_directories_only(found, j);
    }
    lemma_nothing_changed_nothing_listed(rows, scope, statuses, settled(found));
}

/// The path of a child of the directory `dir`.
pub fn join_child(dir: &str, name: &str) -> (path: String)
    ensures
        path@ == child_path(dir@, name@),
{
    if dir.is_empty() {
        String::from_str(name)
    } else {
        let mut path = String::from_str(dir);
        path.push('/');
        path.append(name);
        path
    }
}

impl Scan {
    /// A scan of the tree below `scope` that leaves out the path
    /// `skipped`: nothing found, `scope` to read.
    pub fn start(scope: &str, skipped: &str) -> (scan: Scan)
        ensures
            scan@ == (ScanModel {
                pending: seq![scope@],
                found: Seq::empty(),
                skipped: skipped@,
            }),
    {
        let mut pending: Vec<String> = Vec::new();
        pending.push(String::from_str(scope));
        let scan = Scan { pending, found: Vec::new(), skipped: String::from_str(skipped) };
        assert(scan@.pending =~= seq![scope@]);
        assert(scan@.found =~= Seq::<Scanned>::empty());
        scan
    }

    /// The directory to read next, taken off the scan; none when the scan
    /// is done.
    pub fn next_directory(&mut self) -> (dir: Option<String>)
        ensures
            final(self)@.found == old(self)@.found,
            final(self)@.skipped == old(self)@.skipped,
            old(self)@.pending.len() == 0 ==> dir is None && final(self)@ == old(self)@,
            old(self)@.pending.len() > 0 ==> dir is Some && dir->Some_0@ == old(self)@.pending.last(),
            old(self)@.pending.len() > 0 ==> final(self)@.pending == old(self)@.pending.drop_last(),
    {
        let ghost before = self@.pending;
        let ghost last = self.pending@.last();
        let dir = self.pending.pop();
        proof {
            if before.len() > 0 {
                assert(last@ == before[before.len() - 1]);
                assert(self@.pending =~= before.drop_last());
            } else {
                assert(self@.pending =~= before);
            }
        }
        dir
    }

    /// The paths of the scanned files, split into their components; with
    /// `only_new`, of the new ones.
    pub fn parts_of_files(&self, only_new: bool) -> (parts: Vec<Vec<String>>)
        ensures
            parts.deep_view() == file_parts(self@.found, only_new),
    {
        let mut parts: Vec<Vec<String>> = Vec::new();
        let ghost found = self@.found;
        let ghost f = |r: Scanned| file_path(r, only_new);
        let mut i: usize = 0;
        assert(found.take(0) =~= Seq::<Scanned>::empty());
        assert(parts.deep_view() =~= Seq::<Seq<Seq<char>>>::empty());
        while i < self.found.len()
            invariant
                i <= self.found.len(),
                found == self@.found,
                f == |r: Scanned| file_path(r, only_new),
                parts.deep_view() == found.take(i as int).filter_map(f),
            decreases self.found.len() - i,
        {
            let record = &self.found[i];
            proof {
                found.lemma_filter_map_take_succ(f, i as int);
                assert(found[i as int] == record@);
            }
            if !record.is_dir && (!only_new || matches!(
                FileStatus::from_lookup(record.flags),
                FileStatus::New
            )) {
                let ghost before = parts.deep_view();
                parts.push(split_path(record.path.as_str()));
                assert(parts.deep_view() =~= before + seq![segments(record.path@)]);
            }
            i += 1;
        }
        assert(found.take(self.found.len() as int) =~= found);
        parts
    }

    /// Finishes the scan: what was found, each path with the outcome of its
    /// lookup, and a directory that holds nothing new as current.
    pub fn finish(&self) -> (records: Vec<ScanRecord>)
        ensures
            records.deep_view() == settled(self@.found),
    {
        let files = self.parts_of_files(false);
        let news = self.parts_of_files(true);
        let ghost found = self@.found;
        let mut records: Vec<ScanRecord> = Vec::new();
        let mut i: usize = 0;
        while i < self.found.len()
            invariant
                i <= self.found.len(),
                found == self@.found,
                files.deep_view() == file_parts(found, false),
                news.deep_view() == file_parts(found, true),
                records.len() == i,
                forall|k: int| 0 <= k < i ==> (#[trigger] records.deep_view()[k]) == settled(found)[k],
            decreases self.found.len() - i,
        {
            let record = &self.found[i];
            proof {
                assert(found[i as int] == record@);
            }
            let mut flags = record.flags;
            if record.is_dir && record.flags.is_none() {
                let dir = split_path(record.path.as_str());
                if holds_path_in(&dir, &files) && !holds_path_in(&dir, &news) {
                    flags = Some(0);
                }
            }
            let ghost before = records.deep_view();
            let settled_record = ScanRecord {
                path: record.path.clone(),
                flags,
                is_dir: record.is_dir,
            };
            records.push(settled_record);
            proof {
                assert(records.deep_view() =~= before.push(settled_record@));
            }
            i += 1;
        }
        assert(records.deep_view() =~= settled(found));
        records
    }

    /// Takes what reading the directory `dir` gave: every child is found
    /// under its path, and every child that is a directory is still to read.
    pub fn directory_read(&mut self, dir: &str, children: &Vec<DirChild>)
        ensures
            final(self)@ == old(self)@.read(dir@, children.deep_view()),
    {
        let ghost start = self@;
        let ghost all = children.deep_view();
        let mut i: usize = 0;
        assert(all.take(0) =~= Seq::<DirChildModel>::empty());
        while i < children.len()
            invariant
                i <= children.len(),
                all == children.deep_view(),
                self@ == start.read(dir@, all.take(i as int)),
            decreases children.len() - i,
        {
            let child = &children[i];
            let ghost before = self@;
            proof {
                assert(all.take(i + 1).drop_last() =~= all.take(i as int));
                assert(all.take(i + 1).last() == child@);
            }
            let path = join_child(dir, child.name.as_str());
            let skip = path == self.skipped;
            if !skip {
                if child.is_dir {
                    self.pending.push(path.clone());
                }
                self.found.push(ScanRecord { path, flags: child.flags, is_dir: child.is_dir });
            }
            proof {
                assert(self@.found =~= before.see(dir@, child@).found);
                assert(self@.pending =~= before.see(dir@, child@).pending);
            }
            i += 1;
        }
        assert(all.take(children.len() as int) =~= all);
    }
}

} // verus!
