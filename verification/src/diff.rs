//! The diff assembler: from the line records of two diffs to the text of
//! the details pane for one file.

use vstd::prelude::*;
use vstd::string::*;
use vstd::utf8::{decode_utf8, valid_utf8};
use crate::app::{App, AppModel};
use crate::error::{description, kind_of, AppError, Operation};

verus! {

/// What a line of a diff is.
#[derive(Clone, Copy, Debug, PartialEq, Eq, Structural)]
pub enum LineKind {
    Context,
    Addition,
    Deletion,
    /// Both sides lack a newline at the end of the file.
    ContextEofNewline,
    /// The new side has a newline at the end of the file, the old has none.
    AddEofNewline,
    /// The old side has a newline at the end of the file, the new has none.
    DeleteEofNewline,
    FileHeader,
    HunkHeader,
    Binary,
}

/// One line record of a diff, with the file it belongs to on both sides.
#[derive(Clone, Debug)]
pub struct DiffLine {
    pub old_path: Option<String>,
    pub new_path: Option<String>,
    pub kind: LineKind,
    /// The raw text of the line.
    pub content: Vec<u8>,
}

pub ghost struct DiffLineModel {
    pub old_path: Option<Seq<char>>,
    pub new_path: Option<Seq<char>>,
    pub kind: LineKind,
    pub content: Seq<u8>,
}

impl View for DiffLine {
    type V = DiffLineModel;

    open spec fn view(&self) -> DiffLineModel {
        DiffLineModel {
            old_path: match self.old_path {
                Some(p) => Some(p@),
                None => None,
            },
            new_path: match self.new_path {
                Some(p) => Some(p@),
                None => None,
            },
            kind: self.kind,
            content: self.content@,
        }
    }
}

impl DeepView for DiffLine {
    type V = DiffLineModel;

    open spec fn deep_view(&self) -> DiffLineModel {
        self@
    }
}

/// Whether the line belongs to `path`, on the new or on the old side.
pub open spec fn touches(line: DiffLineModel, path: Seq<char>) -> bool {
    line.new_path == Some(path) || line.old_path == Some(path)
}

/// What stands before the text of a line.
pub open spec fn marker(kind: LineKind) -> Seq<char> {
    match kind {
        LineKind::Addition => seq!['+'],
        LineKind::Deletion => seq!['-'],
        LineKind::AddEofNewline => seq!['+', '\n'],
        LineKind::DeleteEofNewline => seq!['-', '\n'],
        LineKind::Context => seq![' '],
        _ => Seq::empty(),
    }
}

/// The text of a line: its bytes read as UTF-8, or nothing where they are
/// not UTF-8.
pub open spec fn text_of(content: Seq<u8>) -> Seq<char> {
    if valid_utf8(content) {
        decode_utf8(content)
    } else {
        Seq::empty()
    }
}

/// A line as it is shown.
pub open spec fn rendered_line(line: DiffLineModel) -> Seq<char> {
    marker(line.kind) + text_of(line.content)
}

/// The lines of `path` as they are shown, in order; lines of other files
/// leave no trace.
pub open spec fn rendered(lines: Seq<DiffLineModel>, path: Seq<char>) -> Seq<char>
    decreases lines.len(),
{
    if lines.len() == 0 {
        Seq::empty()
    } else if touches(lines.last(), path) {
        rendered(lines.drop_last(), path) + rendered_line(lines.last())
    } else {
        rendered(lines.drop_last(), path)
    }
}

/// Whether the diff has a line of `path`.
pub open spec fn has_changes(lines: Seq<DiffLineModel>, path: Seq<char>) -> bool {
    exists|i: int| 0 <= i < lines.len() && touches(#[trigger] lines[i], path)
}

/// One section of the report: the lines of `path`, or a note that there
/// are none.
pub open spec fn section(lines: Seq<DiffLineModel>, path: Seq<char>) -> Seq<char> {
    if has_changes(lines, path) {
        rendered(lines, path)
    } else {
        "No changes\n"@
    }
}

/// The report for the file at `path`, shown under `name`: the unstaged
/// section, then the staged one; or, where neither diff has a line of the
/// file, one line that says so.
pub open spec fn report(
    path: Seq<char>,
    name: Seq<char>,
    unstaged: Seq<DiffLineModel>,
    staged: Seq<DiffLineModel>,
) -> Seq<char> {
    if !has_changes(unstaged, path) && !has_changes(staged, path) {
        "No changes detected for file: "@ + name
    } else {
        "Unstaged changes:\n"@ + section(unstaged, path) + "\nStaged changes:\n"@ + section(
            staged,
            path,
        )
    }
}

/// The text of the details pane for the selected row: a summary for a
/// directory, the report for a file, and what was there before where no row
/// is selected.
pub open spec fn detail(
    app: AppModel,
    unstaged: Seq<DiffLineModel>,
    staged: Seq<DiffLineModel>,
) -> Seq<char> {
    let i = app.selected_index as int;
    if i >= app.files.len() {
        app.right_pane_content
    } else if app.files[i].is_dir {
        "Directory: "@ + app.files[i].name
    } else {
        report(app.files[i].path(), app.files[i].name, unstaged, staged)
    }
}

/// The lines of `path` among `lines`.
pub open spec fn own_lines(lines: Seq<DiffLineModel>, path: Seq<char>) -> Seq<DiffLineModel> {
    lines.filter(|line: DiffLineModel| touches(line, path))
}

/// What is shown of a diff is what is shown of its lines of `path` alone.
pub proof fn lemma_rendered_ignores_other_paths(lines: Seq<DiffLineModel>, path: Seq<char>)
    ensures
        rendered(own_lines(lines, path), path) == rendered(lines, path),
        has_changes(own_lines(lines, path), path) == has_changes(lines, path),
        forall|i: int|
            0 <= i < own_lines(lines, path).len() ==> touches(
                #[trigger] own_lines(lines, path)[i],
                path,
            ),
    decreases lines.len(),
{
    reveal(Seq::filter);
    if lines.len() > 0 {
        let front = lines.drop_last();
        lemma_rendered_ignores_other_paths(front, path);
        let own_front = own_lines(front, path);
        let own = own_lines(lines, path);
        if touches(lines.last(), path) {
            assert(own == own_front.push(lines.last()));
            assert(own.drop_last() =~= own_front);
            assert(touches(own[own.len() - 1], path));
            assert(touches(lines[lines.len() - 1], path));
        } else {
            assert(own == own_front);
            if has_changes(lines, path) {
                let k = choose|k: int| 0 <= k < lines.len() && touches(#[trigger] lines[k], path);
                assert(touches(front[k], path));
            }
        }
        if has_changes(front, path) {
            let k = choose|k: int| 0 <= k < front.len() && touches(#[trigger] front[k], path);
            assert(touches(lines[k], path));
        }
        if has_changes(own_front, path) {
            let k = choose|k: int|
                0 <= k < own_front.len() && touches(#[trigger] own_front[k], path);
            assert(own[k] == own_front[k]);
        }
    }
}

/// Diff filtering: the report for a file holds what the lines of that file
/// give and nothing of any other file's lines. Where neither diff has a line
/// of the file, the report is the one line that says so.
pub proof fn lemma_report_ignores_other_paths(
    path: Seq<char>,
    name: Seq<char>,
    unstaged: Seq<DiffLineModel>,
    staged: Seq<DiffLineModel>,
)
    ensures
        report(path, name, unstaged, staged) == report(
            path,
            name,
            own_lines(unstaged, path),
            own_lines(staged, path),
        ),
        own_lines(unstaged, path).len() == 0 && own_lines(staged, path).len() == 0 ==> report(
            path,
            name,
            unstaged,
            staged,
        ) == "No changes detected for file: "@ + name,
{
    lemma_rendered_ignores_other_paths(unstaged, path);
    lemma_rendered_ignores_other_paths(staged, path);
}

/// Reads bytes as UTF-8 text.
///
/// Trusted: calls `std::str::from_utf8`, which gives the text exactly when
/// the bytes are valid UTF-8, and then the text that they encode.
#[verifier::external_body]
fn utf8_text(content: &[u8]) -> (text: Option<&str>)
    ensures
        match text {
            Some(s) => valid_utf8(content@) && s@ == decode_utf8(content@),
            None => !valid_utf8(content@),
        },
{
    std::str::from_utf8(content).ok()
}

/// Whether the line belongs to `path`.
pub fn line_touches(line: &DiffLine, path: &String) -> (yes: bool)
    ensures
        yes == touches(line@, path@),
{
    let new_side = match &line.new_path {
        Some(p) => *p == *path,
        None => false,
    };
    let old_side = match &line.old_path {
        Some(p) => *p == *path,
        None => false,
    };
    new_side || old_side
}

/// Appends one section of the report to `content`: every line of `path`
/// with its marker, or a note where the diff has none. Says whether the diff
/// has a line of `path`.
pub fn append_diff(content: &mut String, lines: &Vec<DiffLine>, path: &str) -> (changed: bool)
    ensures
        final(content)@ == old(content)@ + section(lines.deep_view(), path@),
        changed == has_changes(lines.deep_view(), path@),
{
    let wanted = String::from_str(path);
    let ghost start = content@;
    let ghost all = lines.deep_view();
    let mut changed = false;
    let mut i: usize = 0;
    assert(all.take(0) =~= Seq::<DiffLineModel>::empty());
    assert(start + Seq::<char>::empty() =~= start);
    while i < lines.len()
        invariant
            i <= lines.len(),
            all == lines.deep_view(),
            wanted@ == path@,
            content@ == start + rendered(all.take(i as int), path@),
            changed == has_changes(all.take(i as int), path@),
            !changed ==> content@ == start,
        decreases lines.len() - i,
    {
        let line = &lines[i];
        let ghost before = all.take(i as int);
        let ghost now = all.take(i + 1);
        proof {
            assert(now.drop_last() =~= before);
            assert(now.last() == line@);
            if has_changes(before, path@) {
                let k = choose|k: int| 0 <= k < before.len() && touches(#[trigger] before[k], path@);
                assert(touches(now[k], path@));
            }
            if has_changes(now, path@) && !touches(line@, path@) {
                let k = choose|k: int| 0 <= k < now.len() && touches(#[trigger] now[k], path@);
                assert(touches(before[k], path@));
            }
        }
        if line_touches(line, &wanted) {
            proof {
                assert(touches(now[i as int], path@));
            }
            changed = true;
            let ghost sofar = content@;
            match line.kind {
                LineKind::Addition => content.push('+'),
                LineKind::Deletion => content.push('-'),
                LineKind::AddEofNewline => {
                    content.push('+');
                    content.push('\n');
                },
                LineKind::DeleteEofNewline => {
                    content.push('-');
                    content.push('\n');
                },
                LineKind::Context => content.push(' '),
                _ => {},
            }
            assert(content@ =~= sofar + marker(line.kind));
            match utf8_text(line.content.as_slice()) {
                Some(text) => content.append(text),
                None => {},
            }
            assert(content@ =~= start + rendered(now, path@));
        }
        i += 1;
    }
    assert(all.take(lines.len() as int) =~= all);
    if !changed {
        content.append("No changes\n");
    }
    changed
}

/// Fills the details pane for the selected row: a summary for a
/// directory, and for a file the report from its two diffs, the unstaged one
/// (index to working directory) and the staged one (head to index). Without
/// a selected row nothing changes.
pub fn update_right_pane(app: &mut App, unstaged: &Vec<DiffLine>, staged: &Vec<DiffLine>)
    ensures
        final(app)@ == (AppModel {
            right_pane_content: detail(old(app)@, unstaged.deep_view(), staged.deep_view()),
            ..old(app)@
        }),
{
    if app.selected_index >= app.files.len() {
        return ;
    }
    let selected = &app.files[app.selected_index];
    if selected.is_dir {
        let mut text = String::from_str("Directory: ");
        text.append(selected.name.as_str());
        app.right_pane_content = text;
    } else {
        let path = selected.path();
        let mut text = String::from_str("Unstaged changes:\n");
        let unstaged_changed = append_diff(&mut text, unstaged, path.as_str());
        text.append("\nStaged changes:\n");
        let staged_changed = append_diff(&mut text, staged, path.as_str());
        if !unstaged_changed && !staged_changed {
            let mut none = String::from_str("No changes detected for file: ");
            none.append(selected.name.as_str());
            app.right_pane_content = none;
        } else {
            app.right_pane_content = text;
        }
    }
}

/// Takes the outcome of the two diffs of the selected row. Where they
/// were computed, the details pane is filled as `update_right_pane` does.
/// Where they were not, the details pane shows the text of the failure and
/// nothing of a report, and the failure is given back.
pub fn finish_diff(
    app: &mut App,
    outcome: Result<(Vec<DiffLine>, Vec<DiffLine>), String>,
) -> (result: Result<(), AppError>)
    ensures
        outcome matches Ok(diffs) ==> result is Ok && final(app)@ == (AppModel {
            right_pane_content: detail(old(app)@, diffs.0.deep_view(), diffs.1.deep_view()),
            ..old(app)@
        }),
        outcome matches Err(message) ==> result is Err && result->Err_0.kind == kind_of(
            Operation::ComputeDiff,
        ) && result->Err_0.message@ == message@ && final(app)@ == (AppModel {
            right_pane_content: description(kind_of(Operation::ComputeDiff), message@),
            ..old(app)@
        }),
{
    match outcome {
        Ok(diffs) => {
            update_right_pane(app, &diffs.0, &diffs.1);
            Ok(())
        },
        Err(message) => {
            let error = AppError::new(Operation::ComputeDiff, message.as_str());
            app.show_error(&error);
            Err(error)
        },
    }
}

} // verus!
