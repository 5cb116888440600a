//! The display order of rows: directories before files, and within one
//! kind by name, byte by byte.

use vstd::prelude::*;
use vstd::string::*;
use vstd::utf8::*;
use vstd::seq_lib::*;
use crate::entry::{EntryModel, FileEntry};

verus! {

/// Lexicographic order on byte strings: a proper prefix comes first, and
/// otherwise the first differing byte decides.
pub open spec fn lex_le(a: Seq<u8>, b: Seq<u8>) -> bool
    decreases a.len(),
{
    if a.len() == 0 {
        true
    } else if b.len() == 0 {
        false
    } else if a[0] != b[0] {
        a[0] < b[0]
    } else {
        lex_le(a.drop_first(), b.drop_first())
    }
}

/// Whether row `a` may stand before row `b`.
pub open spec fn entry_le(a: EntryModel, b: EntryModel) -> bool {
    if a.is_dir == b.is_dir {
        lex_le(encode_utf8(a.name), encode_utf8(b.name))
    } else {
        a.is_dir
    }
}

/// Whether every row may stand before every later one.
pub open spec fn is_sorted(rows: Seq<EntryModel>) -> bool {
    forall|i: int, j: int| 0 <= i < j < rows.len() ==> entry_le(rows[i], rows[j])
}

pub proof fn lemma_lex_le_reflexive(a: Seq<u8>)
    ensures
        lex_le(a, a),
    decreases a.len(),
{
    if a.len() > 0 {
        lemma_lex_le_reflexive(a.drop_first());
    }
}

pub proof fn lemma_lex_le_total(a: Seq<u8>, b: Seq<u8>)
    ensures
        lex_le(a, b) || lex_le(b, a),
    decreases a.len(),
{
    if a.len() > 0 && b.len() > 0 && a[0] == b[0] {
        lemma_lex_le_total(a.drop_first(), b.drop_first());
    }
}

pub proof fn lemma_lex_le_transitive(a: Seq<u8>, b: Seq<u8>, c: Seq<u8>)
    requires
        lex_le(a, b),
        lex_le(b, c),
    ensures
        lex_le(a, c),
    decreases a.len(),
{
    if a.len() > 0 && b.len() > 0 && c.len() > 0 && a[0] == b[0] && b[0] == c[0] {
        lemma_lex_le_transitive(a.drop_first(), b.drop_first(), c.drop_first());
    }
}

pub proof fn lemma_lex_le_antisymmetric(a: Seq<u8>, b: Seq<u8>)
    requires
        lex_le(a, b),
        lex_le(b, a),
    ensures
        a == b,
    decreases a.len(),
{
    if a.len() > 0 && b.len() > 0 {
        lemma_lex_le_antisymmetric(a.drop_first(), b.drop_first());
        assert(a =~= seq![a[0]] + a.drop_first());
        assert(b =~= seq![b[0]] + b.drop_first());
    } else {
        assert(a =~= b);
    }
}

/// The display order is total.
pub proof fn lemma_entry_le_total(a: EntryModel, b: EntryModel)
    ensures
        entry_le(a, b) || entry_le(b, a),
{
    lemma_lex_le_total(encode_utf8(a.name), encode_utf8(b.name));
}

/// The display order is transitive.
pub proof fn lemma_entry_le_transitive(a: EntryModel, b: EntryModel, c: EntryModel)
    requires
        entry_le(a, b),
        entry_le(b, c),
    ensures
        entry_le(a, c),
{
    if a.is_dir == b.is_dir && b.is_dir == c.is_dir {
        lemma_lex_le_transitive(encode_utf8(a.name), encode_utf8(b.name), encode_utf8(c.name));
    }
}

/// Two rows of one kind that may each stand before the other have the same
/// name.
pub proof fn lemma_entry_le_antisymmetric(a: EntryModel, b: EntryModel)
    requires
        entry_le(a, b),
        entry_le(b, a),
    ensures
        a.is_dir == b.is_dir,
        a.name == b.name,
{
    lemma_lex_le_antisymmetric(encode_utf8(a.name), encode_utf8(b.name));
    encode_utf8_decode_utf8(a.name);
    encode_utf8_decode_utf8(b.name);
}

/// Whether no two rows have the same name.
pub open spec fn names_distinct(rows: Seq<EntryModel>) -> bool {
    forall|i: int, j: int| 0 <= i < j < rows.len() ==> rows[i].name != rows[j].name
}

/// Rows with distinct names have one display order: two sorted sequences
/// of the same rows are the same sequence.
pub proof fn lemma_sorted_rows_unique(a: Seq<EntryModel>, b: Seq<EntryModel>)
    requires
        is_sorted(a),
        is_sorted(b),
        names_distinct(a),
        a.to_multiset() == b.to_multiset(),
    ensures
        a == b,
    decreases a.len(),
{
    broadcast use group_to_multiset_ensures;

    to_multiset_len(a);
    to_multiset_len(b);
    assert(a.len() == b.len());
    if a.len() == 0 {
        assert(a =~= b);
    } else {
        assert(a.contains(a[0]));
        assert(b.contains(b[0]));
        assert(b.to_multiset().count(a[0]) > 0);
        assert(a.to_multiset().count(b[0]) > 0);
        let j = choose|j: int| 0 <= j < b.len() && b[j] == a[0];
        let i = choose|i: int| 0 <= i < a.len() && a[i] == b[0];
        if i != 0 {
            assert(entry_le(a[0], a[i]));
            if j != 0 {
                assert(entry_le(b[0], b[j]));
            } else {
                lemma_lex_le_reflexive(encode_utf8(a[0].name));
            }
            lemma_entry_le_antisymmetric(a[0], b[0]);
            assert(a[0].name == a[i].name);
        }
        assert(a[0] == b[0]);
        let a1 = a.drop_first();
        let b1 = b.drop_first();
        assert(a1 =~= a.remove(0));
        assert(b1 =~= b.remove(0));
        assert(a1.to_multiset() == b1.to_multiset());
        assert forall|i: int, j: int| 0 <= i < j < a1.len() implies entry_le(a1[i], a1[j]) by {
            assert(entry_le(a[i + 1], a[j + 1]));
        }
        assert forall|i: int, j: int| 0 <= i < j < b1.len() implies entry_le(b1[i], b1[j]) by {
            assert(entry_le(b[i + 1], b[j + 1]));
        }
        assert forall|i: int, j: int| 0 <= i < j < a1.len() implies a1[i].name != a1[j].name by {
            assert(a[i + 1].name != a[j + 1].name);
        }
        lemma_sorted_rows_unique(a1, b1);
        assert(a =~= seq![a[0]] + a1);
        assert(b =~= seq![b[0]] + b1);
    }
}

/// Compares two byte strings lexicographically.
pub fn bytes_le(a: &[u8], b: &[u8]) -> (le: bool)
    ensures
        le == lex_le(a@, b@),
{
    let mut i: usize = 0;
    proof {
        assert(a@.skip(0) =~= a@);
        assert(b@.skip(0) =~= b@);
    }
    while i < a.len() && i < b.len()
        invariant
            i <= a.len(),
            i <= b.len(),
            lex_le(a@, b@) == lex_le(a@.skip(i as int), b@.skip(i as int)),
        decreases a.len() - i,
    {
        proof {
            assert(a@.skip(i as int).drop_first() =~= a@.skip(i + 1));
            assert(b@.skip(i as int).drop_first() =~= b@.skip(i + 1));
        }
        if a[i] != b[i] {
            return a[i] < b[i];
        }
        i += 1;
    }
    i == a.len()
}

/// Whether row `a` may stand before row `b`.
pub fn precedes(a: &FileEntry, b: &FileEntry) -> (le: bool)
    ensures
        le == entry_le(a@, b@),
{
    if a.is_dir == b.is_dir {
        bytes_le(a.name.as_str().as_bytes(), b.name.as_str().as_bytes())
    } else {
        a.is_dir
    }
}

/// Sorts rows into display order.
pub fn sort_entries(entries: Vec<FileEntry>) -> (sorted: Vec<FileEntry>)
    ensures
        is_sorted(sorted.deep_view()),
        sorted.deep_view().to_multiset() == entries.deep_view().to_multiset(),
{
    let mut rest = entries;
    let mut sorted: Vec<FileEntry> = Vec::new();
    let ghost all = entries.deep_view();
    proof {
        assert(sorted.deep_view() =~= Seq::<EntryModel>::empty());
        assert(all.to_multiset() =~= sorted.deep_view().to_multiset().add(
            rest.deep_view().to_multiset(),
        )) by {
            broadcast use group_to_multiset_ensures;

        }
    }
    while rest.len() > 0
        invariant
            is_sorted(sorted.deep_view()),
            all.to_multiset() == sorted.deep_view().to_multiset().add(
                rest.deep_view().to_multiset(),
            ),
        decreases rest.len(),
    {
        let ghost rest_before = rest.deep_view();
        let ghost sorted_before = sorted.deep_view();
        let entry = rest.pop().unwrap();
        proof {
            assert(rest.deep_view() =~= rest_before.drop_last());
            assert(rest_before =~= rest.deep_view().push(entry@));
            to_multiset_build(rest.deep_view(), entry@);
        }
        let mut pos: usize = 0;
        while pos < sorted.len() && !precedes(&entry, &sorted[pos])
            invariant
                pos <= sorted.len(),
                sorted_before == sorted.deep_view(),
                forall|k: int| 0 <= k < pos ==> !entry_le(entry@, #[trigger] sorted_before[k]),
            decreases sorted.len() - pos,
        {
            pos += 1;
        }
        sorted.insert(pos, entry);
        proof {
            let after = sorted.deep_view();
            assert(after =~= sorted_before.insert(pos as int, entry@));
            to_multiset_insert(sorted_before, pos as int, entry@);
            assert(all.to_multiset() =~= after.to_multiset().add(rest.deep_view().to_multiset()));
            assert forall|i: int, j: int| 0 <= i < j < after.len() implies entry_le(
                after[i],
                after[j],
            ) by {
                if i == pos {
                    // The row at `pos` before the insertion follows the new one, and
                    // every later row follows that one.
                    assert(entry_le(entry@, sorted_before[pos as int]));
                    if j - 1 > pos {
                        lemma_entry_le_transitive(
                            entry@,
                            sorted_before[pos as int],
                            sorted_before[j - 1],
                        );
                    }
                } else if j == pos {
                    lemma_entry_le_total(entry@, sorted_before[i]);
                } else {
                    let i0 = if i < pos { i } else { i - 1 };
                    let j0 = if j < pos { j } else { j - 1 };
                    assert(entry_le(sorted_before[i0], sorted_before[j0]));
                }
            }
        }
    }
    proof {
        assert(rest.deep_view() =~= Seq::<EntryModel>::empty());
        assert(all.to_multiset() =~= sorted.deep_view().to_multiset()) by {
            broadcast use group_to_multiset_ensures;

        }
    }
    sorted
}

} // verus!
