//! The tree builder: from what the status source and a scan of the
//! directory report to the ordered rows listed under one directory. A path
//! has the status that the repository gives for it, a scanned path that of
//! the lookup for this one path, and new where the lookup failed; a file and
//! a directory alike. A path that is current makes no row.

use vstd::prelude::*;
use vstd::hash_set::StringHashSet;
use crate::entry::{EntryModel, FileEntry};
use crate::order::{is_sorted, lemma_sorted_rows_unique, names_distinct, sort_entries};
use crate::path::{
    below, is_component, join, join_path, lemma_segments_are_components,
    lemma_segments_of_concat, lemma_segments_of_join, relative_parts, segments, split_path,
};
use crate::status::{classify, classify_lookup, FileStatus};

verus! {

/// A path that the status source reports as changed or untracked.
#[derive(Clone, Debug)]
pub struct StatusRecord {
    /// The path relative to the root.
    pub path: String,
    /// The flag word the status source gives for it.
    pub flags: u32,
    /// Whether the file system holds a directory there.
    pub is_dir: bool,
}

/// A path that a scan of the directory found.
#[derive(Clone, Debug)]
pub struct ScanRecord {
    /// The path relative to the root.
    pub path: String,
    /// The flag word of a lookup for this one path; absent where the lookup
    /// failed.
    pub flags: Option<u32>,
    /// Whether the file system holds a directory there.
    pub is_dir: bool,
}

/// A path offered for listing, with its classification.
pub ghost struct Candidate {
    pub path: Seq<char>,
    pub status: FileStatus,
    pub is_dir: bool,
}

impl View for StatusRecord {
    type V = Candidate;

    open spec fn view(&self) -> Candidate {
        Candidate { path: self.path@, status: classify(self.flags), is_dir: self.is_dir }
    }
}

impl DeepView for StatusRecord {
    type V = Candidate;

    open spec fn deep_view(&self) -> Candidate {
        self@
    }
}

/// What the scan found at a path.
pub ghost struct Scanned {
    pub path: Seq<char>,
    pub flags: Option<u32>,
    pub is_dir: bool,
}

impl View for ScanRecord {
    type V = Scanned;

    open spec fn view(&self) -> Scanned {
        Scanned { path: self.path@, flags: self.flags, is_dir: self.is_dir }
    }
}

impl DeepView for ScanRecord {
    type V = Scanned;

    open spec fn deep_view(&self) -> Scanned {
        self@
    }
}

/// What the scan found at a path, as a candidate for listing: it has the
/// classification of its lookup, and counts as new where the lookup failed.
pub open spec fn scan_candidate(r: Scanned) -> Candidate {
    Candidate { path: r.path, status: classify_lookup(r.flags), is_dir: r.is_dir }
}

/// What the scan found, as candidates for listing.
pub open spec fn scan_candidates(scanned: Seq<Scanned>) -> Seq<Candidate> {
    Seq::new(scanned.len(), |i: int| scan_candidate(scanned[i]))
}

/// The directory that rows are listed under, as it is recorded in them:
/// absent for the root.
pub open spec fn scope_parent(scope: Seq<Seq<char>>) -> Option<Seq<char>> {
    if scope.len() == 0 {
        None
    } else {
        Some(join(scope))
    }
}

/// The row for a candidate under the directory with the components
/// `scope`: none unless the candidate lies strictly inside it. The name is
/// the path relative to the directory, the depth one less than the number of
/// its components.
pub open spec fn entry_of(scope: Seq<Seq<char>>, c: Candidate) -> Option<EntryModel> {
    match below(segments(c.path), scope) {
        Some(rest) => Some(
            EntryModel {
                name: join(rest),
                status: c.status,
                is_dir: c.is_dir,
                parent: scope_parent(scope),
                depth: (rest.len() - 1) as nat,
            },
        ),
        None => None,
    }
}

/// A row names the path it was made for: its path relative to the root has
/// the components of the candidate's path, so that listing the directory of
/// a row reaches what lies below that row.
pub proof fn lemma_row_keeps_the_path(scope: Seq<char>, c: Candidate)
    requires
        entry_of(segments(scope), c) is Some,
    ensures
        segments(entry_of(segments(scope), c)->Some_0.path()) == segments(c.path),
        entry_of(segments(scope), c)->Some_0.depth + segments(scope).len() + 1 == segments(
            c.path,
        ).len(),
{
    let parts = segments(scope);
    let full = segments(c.path);
    let rest = below(full, parts)->Some_0;
    let row = entry_of(parts, c)->Some_0;
    lemma_segments_are_components(scope);
    lemma_segments_are_components(c.path);
    assert forall|i: int| 0 <= i < rest.len() implies is_component(#[trigger] rest[i]) by {
        assert(rest[i] == full[i + parts.len()]);
    }
    lemma_segments_of_join(rest);
    if parts.len() == 0 {
        assert(rest =~= full);
    } else {
        lemma_segments_of_join(parts);
        lemma_segments_of_concat(join(parts), join(rest));
        assert(full.take(parts.len() as int) + full.skip(parts.len() as int) =~= full);
    }
}

/// The rows gathered so far, and the names already taken.
pub ghost struct Listing {
    pub rows: Seq<EntryModel>,
    pub seen: Set<Seq<char>>,
}

impl Listing {
    pub open spec fn empty() -> Listing {
        Listing { rows: Seq::empty(), seen: Set::empty() }
    }
}

/// Offers one candidate: it is appended unless it is current, lies
/// outside the directory, or its name is taken. The first row of a name
/// wins; a current candidate takes no name.
pub open spec fn offer(l: Listing, scope: Seq<Seq<char>>, c: Candidate) -> Listing {
    match entry_of(scope, c) {
        Some(e) => if c.status == FileStatus::Current || l.seen.contains(e.name) {
            l
        } else {
            Listing { rows: l.rows.push(e), seen: l.seen.insert(e.name) }
        },
        None => l,
    }
}

/// Offers the candidates in order.
pub open spec fn offer_all(l: Listing, scope: Seq<Seq<char>>, cs: Seq<Candidate>) -> Listing
    decreases cs.len(),
{
    if cs.len() == 0 {
        l
    } else {
        offer(offer_all(l, scope, cs.drop_last()), scope, cs.last())
    }
}

/// The rows under `scope` before they are put in order: what the status
/// source reports, then what the scan adds to it, each scanned file and
/// directory with the classification of its own lookup.
pub open spec fn collected(
    scope: Seq<char>,
    statuses: Seq<Candidate>,
    scanned: Seq<Scanned>,
) -> Seq<EntryModel> {
    offer_all(
        offer_all(Listing::empty(), segments(scope), statuses),
        segments(scope),
        scan_candidates(scanned),
    ).rows
}

/// Whether `rows` is the listing under `scope`: the collected rows, in
/// display order.
pub open spec fn is_file_list(
    rows: Seq<EntryModel>,
    scope: Seq<char>,
    statuses: Seq<Candidate>,
    scanned: Seq<Scanned>,
) -> bool {
    &&& is_sorted(rows)
    &&& rows.to_multiset() == collected(scope, statuses, scanned).to_multiset()
}

/// Whether the names of the rows are distinct and all taken.
pub open spec fn names_taken_once(l: Listing) -> bool {
    &&& names_distinct(l.rows)
    &&& forall|i: int| 0 <= i < l.rows.len() ==> l.seen.contains(#[trigger] l.rows[i].name)
}

/// Offering candidates never lists a name twice.
pub proof fn lemma_offer_all_keeps_names_distinct(
    l: Listing,
    scope: Seq<Seq<char>>,
    cs: Seq<Candidate>,
)
    requires
        names_taken_once(l),
    ensures
        names_taken_once(offer_all(l, scope, cs)),
    decreases cs.len(),
{
    if cs.len() > 0 {
        lemma_offer_all_keeps_names_distinct(l, scope, cs.drop_last());
    }
}

/// The listing under a directory is determined by what the status source
/// and the scan report: no name is listed twice, and two sequences that are
/// both the listing are equal.
pub proof fn lemma_file_list_unique(
    a: Seq<EntryModel>,
    b: Seq<EntryModel>,
    scope: Seq<char>,
    statuses: Seq<Candidate>,
    scanned: Seq<Scanned>,
)
    requires
        is_file_list(a, scope, statuses, scanned),
        is_file_list(b, scope, statuses, scanned),
    ensures
        names_distinct(a),
        a == b,
{
    let parts = segments(scope);
    let rows = collected(scope, statuses, scanned);
    lemma_offer_all_keeps_names_distinct(Listing::empty(), parts, statuses);
    lemma_offer_all_keeps_names_distinct(
        offer_all(Listing::empty(), parts, statuses),
        parts,
        scan_candidates(scanned),
    );
    assert(rows.no_duplicates());
    rows.lemma_multiset_has_no_duplicates();
    a.lemma_multiset_has_no_duplicates_conv();
    assert forall|i: int, j: int| 0 <= i < j < a.len() implies a[i].name != a[j].name by {
        broadcast use vstd::seq_lib::group_to_multiset_ensures;

        assert(a.contains(a[i]));
        assert(a.contains(a[j]));
        assert(rows.to_multiset().count(a[i]) > 0);
        assert(rows.to_multiset().count(a[j]) > 0);
        let p = choose|p: int| 0 <= p < rows.len() && rows[p] == a[i];
        let q = choose|q: int| 0 <= q < rows.len() && rows[q] == a[j];
        assert(a[i] != a[j]);
        assert(p != q);
        if p < q {
            assert(rows[p].name != rows[q].name);
        } else {
            assert(rows[q].name != rows[p].name);
        }
    }
    lemma_sorted_rows_unique(a, b);
}

/// Offering candidates never lists a current one.
pub proof fn lemma_offer_all_lists_no_current(
    l: Listing,
    scope: Seq<Seq<char>>,
    cs: Seq<Candidate>,
)
    requires
        forall|i: int| 0 <= i < l.rows.len() ==> (#[trigger] l.rows[i]).status != FileStatus::Current,
    ensures
        forall|i: int|
            0 <= i < offer_all(l, scope, cs).rows.len() ==> (#[trigger] offer_all(
                l,
                scope,
                cs,
            ).rows[i]).status != FileStatus::Current,
    decreases cs.len(),
{
    if cs.len() > 0 {
        lemma_offer_all_lists_no_current(l, scope, cs.drop_last());
    }
}

/// No row of a listing is current.
pub proof fn lemma_listing_has_no_current_row(
    rows: Seq<EntryModel>,
    scope: Seq<char>,
    statuses: Seq<Candidate>,
    scanned: Seq<Scanned>,
)
    requires
        is_file_list(rows, scope, statuses, scanned),
    ensures
        forall|i: int| 0 <= i < rows.len() ==> (#[trigger] rows[i]).status != FileStatus::Current,
{
    let parts = segments(scope);
    let all = collected(scope, statuses, scanned);
    lemma_offer_all_lists_no_current(Listing::empty(), parts, statuses);
    lemma_offer_all_lists_no_current(
        offer_all(Listing::empty(), parts, statuses),
        parts,
        scan_candidates(scanned),
    );
    assert forall|i: int| 0 <= i < rows.len() implies (#[trigger] rows[i]).status
        != FileStatus::Current by {
        broadcast use vstd::seq_lib::group_to_multiset_ensures;

        assert(rows.contains(rows[i]));
        assert(all.to_multiset().count(rows[i]) > 0);
        let p = choose|p: int| 0 <= p < all.len() && all[p] == rows[i];
    }
}

/// Candidates that are all current or outside the directory add nothing.
pub proof fn lemma_offer_all_adds_nothing(l: Listing, scope: Seq<Seq<char>>, cs: Seq<Candidate>)
    requires
        forall|i: int|
            0 <= i < cs.len() ==> (#[trigger] cs[i]).status == FileStatus::Current || below(
                segments(cs[i].path),
                scope,
            ) is None,
    ensures
        offer_all(l, scope, cs) == l,
    decreases cs.len(),
{
    if cs.len() > 0 {
        let front = cs.drop_last();
        assert forall|i: int| 0 <= i < front.len() implies (#[trigger] front[i]).status
            == FileStatus::Current || below(segments(front[i].path), scope) is None by {
            assert(front[i] == cs[i]);
        }
        lemma_offer_all_adds_nothing(l, scope, front);
        assert(cs[cs.len() - 1] == cs.last());
    }
}

/// Where nothing inside the directory carries a change, nothing is
/// listed: if every path that the status source reports and every path that
/// the scan found, file or directory, is current or lies outside the
/// directory, the listing is empty.
pub proof fn lemma_nothing_changed_nothing_listed(
    rows: Seq<EntryModel>,
    scope: Seq<char>,
    statuses: Seq<Candidate>,
    scanned: Seq<Scanned>,
)
    requires
        is_file_list(rows, scope, statuses, scanned),
        forall|i: int|
            0 <= i < statuses.len() ==> (#[trigger] statuses[i]).status == FileStatus::Current
                || below(segments(statuses[i].path), segments(scope)) is None,
        forall|j: int|
            0 <= j < scanned.len() ==> classify_lookup((#[trigger] scanned[j]).flags)
                == FileStatus::Current || below(segments(scanned[j].path), segments(scope))
                is None,
    ensures
        collected(scope, statuses, scanned) == Seq::<EntryModel>::empty(),
        rows == Seq::<EntryModel>::empty(),
{
    let parts = segments(scope);
    let cs = scan_candidates(scanned);
    assert forall|j: int| 0 <= j < cs.len() implies (#[trigger] cs[j]).status
        == FileStatus::Current || below(segments(cs[j].path), parts) is None by {
        assert(cs[j] == scan_candidate(scanned[j]));
    }
    lemma_offer_all_adds_nothing(Listing::empty(), parts, statuses);
    lemma_offer_all_adds_nothing(Listing::empty(), parts, cs);
    vstd::seq_lib::to_multiset_len(rows);
    vstd::seq_lib::to_multiset_len(Seq::<EntryModel>::empty());
    assert(rows =~= Seq::<EntryModel>::empty());
}

/// What the scan adds is appended: the rows from before stay in front,
/// and the names from before stay taken.
pub proof fn lemma_offer_all_appends(l: Listing, scope: Seq<Seq<char>>, cs: Seq<Candidate>)
    ensures
        l.rows.is_prefix_of(offer_all(l, scope, cs).rows),
        l.seen.subset_of(offer_all(l, scope, cs).seen),
    decreases cs.len(),
{
    if cs.len() > 0 {
        lemma_offer_all_appends(l, scope, cs.drop_last());
    }
}

/// Offers one path for listing under the directory with the components
/// `scope`. A path that is current is passed over.
pub fn add_candidate(
    files: &mut Vec<FileEntry>,
    file_set: &mut StringHashSet,
    scope: &Vec<String>,
    path: &str,
    status: FileStatus,
    is_dir: bool,
)
    ensures
        (Listing { rows: final(files).deep_view(), seen: final(file_set)@ }) == offer(
            (Listing { rows: old(files).deep_view(), seen: old(file_set)@ }),
            scope.deep_view(),
            (Candidate { path: path@, status, is_dir }),
        ),
{
    let ghost rows = files.deep_view();
    if !status.is_changed() {
        return ;
    }
    match relative_parts(path, scope) {
        Some(rest) => {
            let name = join_path(&rest, 0);
            assert(rest.deep_view().skip(0) =~= rest.deep_view());
            if !file_set.contains(name.as_str()) {
                let parent = if scope.len() == 0 {
                    None
                } else {
                    let joined = join_path(scope, 0);
                    assert(scope.deep_view().skip(0) =~= scope.deep_view());
                    Some(joined)
                };
                let entry = FileEntry {
                    name: name.clone(),
                    status,
                    is_dir,
                    parent,
                    depth: rest.len() - 1,
                };
                files.push(entry);
                file_set.insert(name);
                assert(files.deep_view() =~= rows.push(entry@));
            }
        },
        None => {},
    }
}

/// Offers what the scan found, in order: each path with the
/// classification of its lookup, new where the lookup failed, a directory
/// like a file. Rows are only appended.
pub fn add_untracked_files(
    files: &mut Vec<FileEntry>,
    file_set: &mut StringHashSet,
    scanned: &Vec<ScanRecord>,
    current_dir: &str,
)
    ensures
        (Listing { rows: final(files).deep_view(), seen: final(file_set)@ }) == offer_all(
            (Listing { rows: old(files).deep_view(), seen: old(file_set)@ }),
            segments(current_dir@),
            scan_candidates(scanned.deep_view()),
        ),
        old(files).deep_view().is_prefix_of(final(files).deep_view()),
        old(file_set)@.subset_of(final(file_set)@),
{
    let scope = split_path(current_dir);
    let ghost start = Listing { rows: files.deep_view(), seen: file_set@ };
    let ghost all = scan_candidates(scanned.deep_view());
    let mut i: usize = 0;
    assert(all.take(0) =~= Seq::<Candidate>::empty());
    while i < scanned.len()
        invariant
            i <= scanned.len(),
            all == scan_candidates(scanned.deep_view()),
            scope.deep_view() == segments(current_dir@),
            (Listing { rows: files.deep_view(), seen: file_set@ }) == offer_all(
                start,
                scope.deep_view(),
                all.take(i as int),
            ),
        decreases scanned.len() - i,
    {
        let record = &scanned[i];
        proof {
            assert(scanned.deep_view()[i as int] == record@);
            assert(all.take(i + 1).drop_last() =~= all.take(i as int));
            assert(all.take(i + 1).last() == scan_candidate(record@));
        }
        add_candidate(
            files,
            file_set,
            &scope,
            record.path.as_str(),
            FileStatus::from_lookup(record.flags),
            record.is_dir,
        );
        i += 1;
    }
    proof {
        assert(all.take(scanned.len() as int) =~= all);
        lemma_offer_all_appends(start, scope.deep_view(), all);
    }
}

/// Builds the rows listed under `current_dir`, in display order: every
/// changed path that the status source reports inside it, then every
/// scanned path inside it, file or directory, whose lookup gives a change or
/// failed. A name is listed once, and nothing that is current is listed.
pub fn get_file_list(
    current_dir: &str,
    statuses: &Vec<StatusRecord>,
    scanned: &Vec<ScanRecord>,
) -> (files: Vec<FileEntry>)
    ensures
        is_file_list(files.deep_view(), current_dir@, statuses.deep_view(), scanned.deep_view()),
        files.len() == collected(
            current_dir@,
            statuses.deep_view(),
            scanned.deep_view(),
        ).len(),
{
    let mut files: Vec<FileEntry> = Vec::new();
    let mut file_set = StringHashSet::new();
    let scope = split_path(current_dir);
    let ghost all = statuses.deep_view();
    let mut i: usize = 0;
    assert(all.take(0) =~= Seq::<Candidate>::empty());
    assert(files.deep_view() =~= Seq::<EntryModel>::empty());
    while i < statuses.len()
        invariant
            i <= statuses.len(),
            all == statuses.deep_view(),
            scope.deep_view() == segments(current_dir@),
            (Listing { rows: files.deep_view(), seen: file_set@ }) == offer_all(
                Listing::empty(),
                scope.deep_view(),
                all.take(i as int),
            ),
        decreases statuses.len() - i,
    {
        let record = &statuses[i];
        proof {
            assert(all.take(i + 1).drop_last() =~= all.take(i as int));
            assert(all.take(i + 1).last() == record@);
        }
        add_candidate(
            &mut files,
            &mut file_set,
            &scope,
            record.path.as_str(),
            FileStatus::from_bits(record.flags),
            record.is_dir,
        );
        i += 1;
    }
    assert(all.take(statuses.len() as int) =~= all);
    add_untracked_files(&mut files, &mut file_set, scanned, current_dir);
    proof {
        vstd::seq_lib::to_multiset_len(files.deep_view());
    }
    let sorted = sort_entries(files);
    proof {
        vstd::seq_lib::to_multiset_len(sorted.deep_view());
    }
    sorted
}

} // verus!
