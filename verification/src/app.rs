//! The session state and its state machine: selection, scrolling, focus,
//! the expansion of directories and the commit dialog. The state machine
//! decides; what it needs from the repository it asks for as an [`Action`],
//! and it is told the outcome, success or failure, by a call of one of the
//! `finish_*` functions.

use vstd::prelude::*;
use vstd::string::*;
use vstd::hash_map::StringHashMap;
use crate::entry::{error_row_model, EntryModel, FileEntry};
use crate::error::{description, kind_of, AppError, Operation};
use crate::flat::{
    collapse_rows, collapsed, expanded, is_collapsed_at, lemma_expand_then_collapse,
    lemma_run_end_bounds, rebase_fits, rebase_rows, subtree_end, subtree_end_of,
};

verus! {

/// The number of rows or lines that a page step moves by.
pub const PAGE_SIZE: usize = 10;

/// The last screen column of the file list.
pub const FILE_LIST_LAST_COLUMN: u16 = 30;

/// The last screen column of the details pane.
pub const DETAILS_LAST_COLUMN: u16 = 65;

/// A dialog: its text, and whether it is on screen.
#[derive(Clone, Debug)]
pub struct Modal {
    pub content: String,
    pub is_visible: bool,
}

pub ghost struct ModalModel {
    pub content: Seq<char>,
    pub is_visible: bool,
}

impl View for Modal {
    type V = ModalModel;

    open spec fn view(&self) -> ModalModel {
        ModalModel { content: self.content@, is_visible: self.is_visible }
    }
}

/// The pane that navigation keys go to.
#[derive(Clone, Copy, Debug, PartialEq, Eq, Structural)]
pub enum FocusedPane {
    FileList,
    Details,
    Debug,
}

/// A key press.
#[derive(Clone, Copy, Debug, PartialEq, Eq, Structural)]
pub enum Key {
    Up,
    Down,
    PageUp,
    PageDown,
    Left,
    Right,
    Enter,
    Esc,
    Backspace,
    Char(char),
    Other,
}

/// A mouse event.
#[derive(Clone, Copy, Debug, PartialEq, Eq, Structural)]
pub enum Mouse {
    /// The left button went down in the given screen column.
    LeftDown { column: u16 },
    Other,
}

/// An input event.
#[derive(Clone, Copy, Debug, PartialEq, Eq, Structural)]
pub enum InputEvent {
    Key(Key),
    Mouse(Mouse),
    Other,
}

/// What the session asks of the repository after an event.
#[derive(Clone, Debug, PartialEq, Eq)]
pub enum Action {
    /// Nothing.
    Idle,
    /// List the directory at `path` (relative to the root) and report to
    /// `finish_listing`.
    ListDirectory { path: String },
    /// Compute the unstaged and staged diffs of the file at `path` and
    /// report to `finish_diff`.
    ShowDiff { path: String },
    /// Stage every changed path and report to `finish_staging`.
    StageAll,
    /// Commit with `message`, list the root afresh if that went through,
    /// and report to `finish_commit`.
    Commit { message: String },
    /// End the session.
    Quit,
}

pub ghost enum ActionModel {
    Idle,
    ListDirectory { path: Seq<char> },
    ShowDiff { path: Seq<char> },
    StageAll,
    Commit { message: Seq<char> },
    Quit,
}

impl View for Action {
    type V = ActionModel;

    open spec fn view(&self) -> ActionModel {
        match self {
            Action::Idle => ActionModel::Idle,
            Action::ListDirectory { path } => ActionModel::ListDirectory { path: path@ },
            Action::ShowDiff { path } => ActionModel::ShowDiff { path: path@ },
            Action::StageAll => ActionModel::StageAll,
            Action::Commit { message } => ActionModel::Commit { message: message@ },
            Action::Quit => ActionModel::Quit,
        }
    }
}

/// The session state.
pub struct App {
    /// The rows on screen.
    pub files: Vec<FileEntry>,
    /// For each directory that was ever toggled, by absolute path, whether
    /// it is expanded.
    pub expanded_dirs: StringHashMap<bool>,
    pub selected_index: usize,
    /// The text of the details pane.
    pub right_pane_content: String,
    pub debug_content: String,
    pub commit_modal: Modal,
    pub help_modal: Modal,
    pub root_dir: String,
    pub debug_mode: bool,
    pub focused_pane: FocusedPane,
    pub details_scroll: usize,
}

pub ghost struct AppModel {
    pub files: Seq<EntryModel>,
    pub expanded_dirs: Map<Seq<char>, bool>,
    pub selected_index: nat,
    pub right_pane_content: Seq<char>,
    pub debug_content: Seq<char>,
    pub commit_modal: ModalModel,
    pub help_modal: ModalModel,
    pub root_dir: Seq<char>,
    pub debug_mode: bool,
    pub focused_pane: FocusedPane,
    pub details_scroll: nat,
}

impl View for App {
    type V = AppModel;

    open spec fn view(&self) -> AppModel {
        AppModel {
            files: self.files.deep_view(),
            expanded_dirs: self.expanded_dirs@,
            selected_index: self.selected_index as nat,
            right_pane_content: self.right_pane_content@,
            debug_content: self.debug_content@,
            commit_modal: self.commit_modal@,
            help_modal: self.help_modal@,
            root_dir: self.root_dir@,
            debug_mode: self.debug_mode,
            focused_pane: self.focused_pane,
            details_scroll: self.details_scroll as nat,
        }
    }
}

/// The help text.
pub open spec fn help_text() -> Seq<char> {
    "Key Bindings:\n    ↑/↓: Navigate file list\n    Enter: Expand/collapse directory or view file details/diff\n    c: Stage all modified files and open commit dialog\n    ?: Toggle this help menu\n    q: Quit the application\n\n    In commit dialog:\n    Enter: Confirm commit\n    Esc: Cancel commit"@
}

/// The index after a move by `steps` rows in a list of `len` rows: the
/// target, or the nearest row where the target lies outside the list. In
/// an empty list nothing moves.
pub open spec fn moved(len: nat, index: nat, down: bool, steps: nat) -> nat {
    if len == 0 {
        index
    } else if down {
        if index + steps >= len {
            (len - 1) as nat
        } else {
            index + steps
        }
    } else {
        let at = if index >= len {
            (len - 1) as nat
        } else {
            index
        };
        if steps >= at {
            0
        } else {
            (at - steps) as nat
        }
    }
}

/// The scroll offset after a move by `steps` lines: it stops at the first
/// line and at the largest offset the machine word holds.
pub open spec fn scrolled(offset: nat, down: bool, steps: nat) -> nat {
    if down {
        if offset + steps > usize::MAX {
            usize::MAX as nat
        } else {
            offset + steps
        }
    } else if steps >= offset {
        0
    } else {
        (offset - steps) as nat
    }
}

/// The index nearest to `index` in a list of `len` rows.
pub open spec fn clamped(len: nat, index: nat) -> nat {
    if len == 0 {
        0
    } else if index >= len {
        (len - 1) as nat
    } else {
        index
    }
}

/// The key of a row in the expansion flags: its absolute path.
pub open spec fn row_key(root: Seq<char>, row: EntryModel) -> Seq<char> {
    root.push('/') + row.path()
}

/// Whether the flags mark the directory with this key as expanded.
pub open spec fn flagged(flags: Map<Seq<char>, bool>, key: Seq<char>) -> bool {
    flags.contains_key(key) && flags[key]
}

/// The flags after the rows left the screen: every directory among them
/// that was marked as expanded is marked as collapsed.
pub open spec fn contracted(
    flags: Map<Seq<char>, bool>,
    root: Seq<char>,
    rows: Seq<EntryModel>,
) -> Map<Seq<char>, bool>
    decreases rows.len(),
{
    if rows.len() == 0 {
        flags
    } else {
        let before = contracted(flags, root, rows.drop_last());
        let key = row_key(root, rows.last());
        if rows.last().is_dir && flagged(before, key) {
            before.insert(key, false)
        } else {
            before
        }
    }
}

/// The pane under a screen column.
pub open spec fn pane_at(column: u16) -> FocusedPane {
    if column <= FILE_LIST_LAST_COLUMN {
        FocusedPane::FileList
    } else if column <= DETAILS_LAST_COLUMN {
        FocusedPane::Details
    } else {
        FocusedPane::Debug
    }
}

impl AppModel {
    /// Whether the selection points at a row, or the list is empty.
    pub open spec fn selection_in_bounds(self) -> bool {
        self.files.len() == 0 || self.selected_index < self.files.len()
    }

    /// Whether the commit dialog is open.
    pub open spec fn composing(self) -> bool {
        self.commit_modal.is_visible
    }

    /// The key of a row in `expanded_dirs`: its absolute path.
    pub open spec fn expansion_key(self, i: int) -> Seq<char> {
        row_key(self.root_dir, self.files[i])
    }

    /// Whether the directory with this key is flagged as expanded.
    pub open spec fn is_expanded(self, key: Seq<char>) -> bool {
        flagged(self.expanded_dirs, key)
    }

    /// Collapsing row `i`: its subtree leaves the screen, and every
    /// directory in the subtree that was flagged as expanded is flagged as
    /// collapsed, so that nested expansions are contracted with it. Without
    /// such a row nothing changes.
    pub open spec fn collapse_directory(self, i: int) -> AppModel {
        if 0 <= i < self.files.len() {
            AppModel {
                files: collapsed(self.files, i),
                expanded_dirs: contracted(
                    self.expanded_dirs,
                    self.root_dir,
                    self.files.subrange(i + 1, subtree_end(self.files, i)),
                ),
                ..self
            }
        } else {
            self
        }
    }

    pub open spec fn move_selection(self, down: bool, steps: nat) -> AppModel {
        AppModel {
            selected_index: moved(self.files.len(), self.selected_index, down, steps),
            ..self
        }
    }

    pub open spec fn scroll_details(self, down: bool, steps: nat) -> AppModel {
        AppModel { details_scroll: scrolled(self.details_scroll, down, steps), ..self }
    }

    pub open spec fn set_focused_pane(self, pane: FocusedPane) -> AppModel {
        AppModel { focused_pane: pane, ..self }
    }

    pub open spec fn toggle_help(self) -> AppModel {
        AppModel {
            help_modal: ModalModel { is_visible: !self.help_modal.is_visible, ..self.help_modal },
            ..self
        }
    }

    pub open spec fn toggle_debug_mode(self) -> AppModel {
        AppModel { debug_mode: !self.debug_mode, ..self }
    }

    /// Both dialogs leave the screen, and the commit message is discarded.
    pub open spec fn close_modals(self) -> AppModel {
        AppModel {
            commit_modal: ModalModel { content: Seq::empty(), is_visible: false },
            help_modal: ModalModel { is_visible: false, ..self.help_modal },
            ..self
        }
    }

    pub open spec fn type_char(self, c: char) -> AppModel {
        AppModel {
            commit_modal: ModalModel {
                content: self.commit_modal.content.push(c),
                ..self.commit_modal
            },
            ..self
        }
    }

    pub open spec fn erase_char(self) -> AppModel {
        if self.commit_modal.content.len() == 0 {
            self
        } else {
            AppModel {
                commit_modal: ModalModel {
                    content: self.commit_modal.content.drop_last(),
                    ..self.commit_modal
                },
                ..self
            }
        }
    }

    pub open spec fn debug_log(self, message: Seq<char>) -> AppModel {
        AppModel { debug_content: (self.debug_content + message).push('\n'), ..self }
    }

    /// Toggling the selected row. A file is viewed: its diff is asked for
    /// and nothing changes. A directory has its flag flipped; one that is
    /// now expanded has its listing asked for, one that is now collapsed
    /// is collapsed with everything expanded inside it. Without a selected
    /// row nothing happens.
    pub open spec fn toggle_directory(self) -> (AppModel, ActionModel) {
        let i = self.selected_index as int;
        if i >= self.files.len() {
            (self, ActionModel::Idle)
        } else if !self.files[i].is_dir {
            (self, ActionModel::ShowDiff { path: self.files[i].path() })
        } else {
            let key = self.expansion_key(i);
            if self.is_expanded(key) {
                (
                    (AppModel {
                        expanded_dirs: self.expanded_dirs.insert(key, false),
                        ..self
                    }).collapse_directory(i),
                    ActionModel::Idle,
                )
            } else {
                (
                    AppModel { expanded_dirs: self.expanded_dirs.insert(key, true), ..self },
                    ActionModel::ListDirectory { path: self.files[i].path() },
                )
            }
        }
    }

    /// Whether a listing can be spliced in behind the selected row: the row
    /// is a directory, and the depths fit the machine word.
    pub open spec fn accepts_children(self, children: Seq<EntryModel>) -> bool {
        let i = self.selected_index as int;
        &&& i < self.files.len()
        &&& self.files[i].is_dir
        &&& self.files[i].depth + 1 <= usize::MAX
        &&& rebase_fits(children, self.files[i].depth + 1)
    }

    /// The listing of the selected directory spliced in behind it.
    pub open spec fn insert_children(self, children: Seq<EntryModel>) -> AppModel {
        if self.accepts_children(children) {
            AppModel { files: expanded(self.files, self.selected_index as int, children), ..self }
        } else {
            self
        }
    }

    /// After the listing of the selected directory: the rows are spliced
    /// in behind it; where the listing could not be built, the one row that
    /// says so is.
    pub open spec fn finish_listing(self, outcome: Result<Seq<EntryModel>, Seq<char>>) -> AppModel {
        match outcome {
            Ok(rows) => self.insert_children(rows),
            Err(message) => self.insert_children(
                seq![error_row_model(kind_of(Operation::QueryStatus), message)],
            ),
        }
    }

    /// Staging is asked for first; the dialog opens once it is done.
    pub open spec fn start_commit(self) -> (AppModel, ActionModel) {
        (self, ActionModel::StageAll)
    }

    /// After staging: the dialog opens if it went well.
    pub open spec fn finish_staging(self, staged: bool) -> AppModel {
        if staged {
            AppModel { commit_modal: ModalModel { is_visible: true, ..self.commit_modal }, ..self }
        } else {
            self
        }
    }

    /// Confirming the dialog asks for the commit; the dialog stays as it is
    /// until the outcome is known.
    pub open spec fn perform_commit(self) -> (AppModel, ActionModel) {
        (self, ActionModel::Commit { message: self.commit_modal.content })
    }

    /// After a commit went through: the dialog closes and loses its text,
    /// the tree is the fresh listing of the root with nothing expanded, the
    /// details pane is empty, and the selection is the nearest row.
    pub open spec fn commit_done(self, files: Seq<EntryModel>) -> AppModel {
        AppModel {
            files,
            expanded_dirs: Map::empty(),
            selected_index: clamped(files.len(), self.selected_index),
            right_pane_content: Seq::empty(),
            commit_modal: ModalModel { content: Seq::empty(), is_visible: false },
            ..self
        }
    }

    pub open spec fn handle_mouse_event(self, mouse: Mouse) -> AppModel {
        match mouse {
            Mouse::LeftDown { column } => self.set_focused_pane(pane_at(column)),
            Mouse::Other => self,
        }
    }

    /// What a key does while the commit dialog is open: only the dialog
    /// reacts.
    pub open spec fn handle_dialog_key(self, key: Key) -> (AppModel, ActionModel) {
        match key {
            Key::Enter => self.perform_commit(),
            Key::Esc => (self.close_modals(), ActionModel::Idle),
            Key::Char(c) => (self.type_char(c), ActionModel::Idle),
            Key::Backspace => (self.erase_char(), ActionModel::Idle),
            _ => (self, ActionModel::Idle),
        }
    }

    /// What a vertical navigation key does while browsing: it goes to the
    /// focused pane.
    pub open spec fn navigate(self, down: bool, steps: nat) -> AppModel {
        match self.focused_pane {
            FocusedPane::FileList => self.move_selection(down, steps),
            FocusedPane::Details => self.scroll_details(down, steps),
            FocusedPane::Debug => self,
        }
    }

    /// The quit key ends the session, unless the help dialog is on screen.
    pub open spec fn quit(self) -> (AppModel, ActionModel) {
        if self.help_modal.is_visible {
            (self, ActionModel::Idle)
        } else {
            (self, ActionModel::Quit)
        }
    }

    /// What a key does while browsing.
    pub open spec fn handle_browse_key(self, key: Key) -> (AppModel, ActionModel) {
        match key {
            Key::Up => (self.navigate(false, 1), ActionModel::Idle),
            Key::Down => (self.navigate(true, 1), ActionModel::Idle),
            Key::PageUp => (self.navigate(false, PAGE_SIZE as nat), ActionModel::Idle),
            Key::PageDown => (self.navigate(true, PAGE_SIZE as nat), ActionModel::Idle),
            Key::Left => (self.set_focused_pane(FocusedPane::FileList), ActionModel::Idle),
            Key::Right => (self.set_focused_pane(FocusedPane::Details), ActionModel::Idle),
            Key::Enter => self.toggle_directory(),
            Key::Esc => (self.close_modals(), ActionModel::Idle),
            Key::Char(c) => if c == 'c' {
                self.start_commit()
            } else if c == '?' {
                (self.toggle_help(), ActionModel::Idle)
            } else if c == 'd' {
                (self.toggle_debug_mode(), ActionModel::Idle)
            } else if c == 'q' {
                self.quit()
            } else {
                (self, ActionModel::Idle)
            },
            _ => (self, ActionModel::Idle),
        }
    }

    pub open spec fn handle_key_event(self, key: Key) -> (AppModel, ActionModel) {
        if self.composing() {
            self.handle_dialog_key(key)
        } else {
            self.handle_browse_key(key)
        }
    }

    pub open spec fn handle_event(self, event: InputEvent) -> (AppModel, ActionModel) {
        match event {
            InputEvent::Key(key) => self.handle_key_event(key),
            InputEvent::Mouse(mouse) => (self.handle_mouse_event(mouse), ActionModel::Idle),
            InputEvent::Other => (self, ActionModel::Idle),
        }
    }
}

/// One move of the selection.
pub ghost struct Move {
    pub down: bool,
    pub steps: nat,
}

/// The index after a sequence of moves.
pub open spec fn after_moves(len: nat, index: nat, moves: Seq<Move>) -> nat
    decreases moves.len(),
{
    if moves.len() == 0 {
        index
    } else {
        moved(len, after_moves(len, index, moves.drop_last()), moves.last().down, moves.last().steps)
    }
}

/// In a list with rows the selection stays on a row after any sequence of
/// moves, however far each of them goes.
pub proof fn lemma_selection_stays_in_bounds(len: nat, index: nat, moves: Seq<Move>)
    requires
        len > 0,
        index < len,
    ensures
        after_moves(len, index, moves) < len,
    decreases moves.len(),
{
    if moves.len() > 0 {
        lemma_selection_stays_in_bounds(len, index, moves.drop_last());
    }
}

/// A move never leaves the selection off the list, and it ends on the
/// first row when it goes up far enough, on the last when it goes down far
/// enough.
pub proof fn lemma_move_stops_at_the_ends(len: nat, index: nat, down: bool, steps: nat)
    requires
        len > 0,
    ensures
        moved(len, index, down, steps) < len,
        steps >= len ==> moved(len, index, down, steps) == (if down {
            len - 1
        } else {
            0
        }),
{
}

/// No event and no outcome takes the selection off the list.
pub proof fn lemma_selection_invariant(
    app: AppModel,
    event: InputEvent,
    children: Seq<EntryModel>,
    files: Seq<EntryModel>,
    staged: bool,
)
    requires
        app.selection_in_bounds(),
    ensures
        app.handle_event(event).0.selection_in_bounds(),
        app.insert_children(children).selection_in_bounds(),
        app.finish_staging(staged).selection_in_bounds(),
        app.commit_done(files).selection_in_bounds(),
{
    let i = app.selected_index as int;
    if i < app.files.len() {
        lemma_run_end_bounds(app.files, app.files[i].depth, i + 1);
    }
}

/// Expanding the selected directory and collapsing it again gives the rows
/// back, for a directory that had no subtree and was not flagged as
/// expanded: the first toggle asks for the listing, the second asks for
/// nothing and removes what was spliced in.
pub proof fn lemma_toggle_round_trip(app: AppModel, children: Seq<EntryModel>)
    requires
        app.selected_index < app.files.len(),
        app.files[app.selected_index as int].is_dir,
        !app.is_expanded(app.expansion_key(app.selected_index as int)),
        is_collapsed_at(app.files, app.selected_index as int),
        app.accepts_children(children),
    ensures
        app.toggle_directory().1 == (ActionModel::ListDirectory {
            path: app.files[app.selected_index as int].path(),
        }),
        app.toggle_directory().0.insert_children(children).toggle_directory().1
            == ActionModel::Idle,
        app.toggle_directory().0.insert_children(children).toggle_directory().0.files == app.files,
        app.toggle_directory().0.insert_children(children).toggle_directory().0.selected_index
            == app.selected_index,
{
    let i = app.selected_index as int;
    let asked = app.toggle_directory().0;
    let opened = asked.insert_children(children);
    lemma_expand_then_collapse(app.files, i, children);
    assert(opened.files[i] == app.files[i]);
    assert(opened.expansion_key(i) == app.expansion_key(i));
}

/// Whether `key` is the key of a directory among the rows.
pub open spec fn names_directory(rows: Seq<EntryModel>, root: Seq<char>, key: Seq<char>) -> bool {
    exists|k: int| 0 <= k < rows.len() && (#[trigger] rows[k]).is_dir && row_key(root, rows[k]) == key
}

/// Contracting flags never marks a directory as expanded, leaves the flag
/// of every key alone that is not the key of a directory among the rows, and
/// leaves no directory among the rows marked as expanded.
pub proof fn lemma_contracted_flags(
    flags: Map<Seq<char>, bool>,
    root: Seq<char>,
    rows: Seq<EntryModel>,
    key: Seq<char>,
)
    ensures
        flagged(contracted(flags, root, rows), key) ==> flagged(flags, key),
        contracted(flags, root, rows).contains_key(key) == flags.contains_key(key),
        !names_directory(rows, root, key) ==> contracted(flags, root, rows)[key] == flags[key],
        names_directory(rows, root, key) ==> !flagged(contracted(flags, root, rows), key),
    decreases rows.len(),
{
    if rows.len() > 0 {
        let front = rows.drop_last();
        lemma_contracted_flags(flags, root, front, key);
        if names_directory(front, root, key) {
            let k = choose|k: int|
                0 <= k < front.len() && (#[trigger] front[k]).is_dir && row_key(root, front[k])
                    == key;
            assert(rows[k] == front[k]);
        }
        if names_directory(rows, root, key) {
            let k = choose|k: int|
                0 <= k < rows.len() && (#[trigger] rows[k]).is_dir && row_key(root, rows[k]) == key;
            if k < front.len() {
                assert(front[k] == rows[k]);
            }
        } else {
            assert(rows[rows.len() - 1] == rows.last());
        }
    }
}

/// Collapsing a directory contracts the expansions nested in it: no
/// directory row that leaves the screen stays flagged as expanded, so that
/// toggling it after the parent is expanded again expands it.
pub proof fn lemma_collapse_contracts_nested(app: AppModel, i: int, k: int)
    requires
        0 <= i < k < subtree_end(app.files, i),
        i < app.files.len(),
        app.files[k].is_dir,
    ensures
        !app.collapse_directory(i).is_expanded(app.expansion_key(k)),
{
    let end = subtree_end(app.files, i);
    lemma_run_end_bounds(app.files, app.files[i].depth, i + 1);
    let removed = app.files.subrange(i + 1, end);
    assert(removed[k - i - 1] == app.files[k]);
    assert(names_directory(removed, app.root_dir, app.expansion_key(k)));
    lemma_contracted_flags(app.expanded_dirs, app.root_dir, removed, app.expansion_key(k));
}

/// Canceling the commit dialog leads back to browsing without a commit
/// being asked for, and the text typed so far is gone when the dialog opens
/// again.
pub proof fn lemma_cancel_discards_message(app: AppModel)
    requires
        app.composing(),
    ensures
        app.handle_key_event(Key::Esc).1 == ActionModel::Idle,
        !app.handle_key_event(Key::Esc).0.composing(),
        app.handle_key_event(Key::Esc).0.finish_staging(true).commit_modal.content
            == Seq::<char>::empty(),
{
}

/// While the commit dialog is open no key moves the selection, scrolls,
/// changes the focus or touches the tree.
pub proof fn lemma_dialog_keys_leave_the_tree_alone(app: AppModel, key: Key)
    requires
        app.composing(),
    ensures
        app.handle_key_event(key).0.files == app.files,
        app.handle_key_event(key).0.expanded_dirs == app.expanded_dirs,
        app.handle_key_event(key).0.selected_index == app.selected_index,
        app.handle_key_event(key).0.details_scroll == app.details_scroll,
        app.handle_key_event(key).0.focused_pane == app.focused_pane,
        app.handle_key_event(key).1 is Idle || app.handle_key_event(key).1 is Commit,
{
}

/// The key of a row in the expansion flags.
pub fn key_of(root: &String, row: &FileEntry) -> (key: String)
    ensures
        key@ == row_key(root@, row@),
{
    let mut key = root.clone();
    key.push('/');
    key.append(row.path().as_str());
    key
}

/// The help text.
pub fn get_help_content() -> (text: String)
    ensures
        text@ == help_text(),
{
    String::from_str(
        "Key Bindings:\n    ↑/↓: Navigate file list\n    Enter: Expand/collapse directory or view file details/diff\n    c: Stage all modified files and open commit dialog\n    ?: Toggle this help menu\n    q: Quit the application\n\n    In commit dialog:\n    Enter: Confirm commit\n    Esc: Cancel commit",
    )
}

impl App {
    /// A session on the working tree at `root_dir`, showing the listing of
    /// the root: the first row selected, nothing expanded, no dialog open,
    /// the file list focused.
    pub fn new(root_dir: String, files: Vec<FileEntry>) -> (app: App)
        ensures
            app@ == (AppModel {
                files: files.deep_view(),
                expanded_dirs: Map::empty(),
                selected_index: 0,
                right_pane_content: Seq::empty(),
                debug_content: Seq::empty(),
                commit_modal: ModalModel { content: Seq::empty(), is_visible: false },
                help_modal: ModalModel { content: help_text(), is_visible: false },
                root_dir: root_dir@,
                debug_mode: false,
                focused_pane: FocusedPane::FileList,
                details_scroll: 0,
            }),
    {
        App {
            files,
            expanded_dirs: StringHashMap::new(),
            selected_index: 0,
            right_pane_content: String::new(),
            debug_content: String::new(),
            commit_modal: Modal { content: String::new(), is_visible: false },
            help_modal: Modal { content: get_help_content(), is_visible: false },
            root_dir,
            debug_mode: false,
            focused_pane: FocusedPane::FileList,
            details_scroll: 0,
        }
    }

    /// Handles an input event and says what to ask of the repository.
    pub fn handle_event(&mut self, event: InputEvent) -> (action: Action)
        ensures
            (final(self)@, action@) == old(self)@.handle_event(event),
    {
        match event {
            InputEvent::Key(key) => self.handle_key_event(key),
            InputEvent::Mouse(mouse) => {
                self.handle_mouse_event(mouse);
                Action::Idle
            },
            InputEvent::Other => Action::Idle,
        }
    }

    /// A click with the left button focuses the pane under it.
    pub fn handle_mouse_event(&mut self, mouse: Mouse)
        ensures
            final(self)@ == old(self)@.handle_mouse_event(mouse),
    {
        match mouse {
            Mouse::LeftDown { column } => {
                let pane = if column <= FILE_LIST_LAST_COLUMN {
                    FocusedPane::FileList
                } else if column <= DETAILS_LAST_COLUMN {
                    FocusedPane::Details
                } else {
                    FocusedPane::Debug
                };
                self.set_focused_pane(pane);
            },
            Mouse::Other => {},
        }
    }

    /// Handles a key press and says what to ask of the repository. While
    /// the commit dialog is open only the dialog reacts.
    pub fn handle_key_event(&mut self, key: Key) -> (action: Action)
        ensures
            (final(self)@, action@) == old(self)@.handle_key_event(key),
    {
        if self.commit_modal.is_visible {
            match key {
                Key::Enter => self.perform_commit(),
                Key::Esc => {
                    self.close_modals();
                    Action::Idle
                },
                Key::Char(c) => {
                    self.commit_modal.content.push(c);
                    Action::Idle
                },
                Key::Backspace => {
                    self.commit_modal.content.pop();
                    Action::Idle
                },
                _ => Action::Idle,
            }
        } else {
            match key {
                Key::Up => {
                    self.navigate(false, 1);
                    Action::Idle
                },
                Key::Down => {
                    self.navigate(true, 1);
                    Action::Idle
                },
                Key::PageUp => {
                    self.navigate(false, PAGE_SIZE);
                    Action::Idle
                },
                Key::PageDown => {
                    self.navigate(true, PAGE_SIZE);
                    Action::Idle
                },
                Key::Left => {
                    self.set_focused_pane(FocusedPane::FileList);
                    Action::Idle
                },
                Key::Right => {
                    self.set_focused_pane(FocusedPane::Details);
                    Action::Idle
                },
                Key::Enter => self.toggle_directory(),
                Key::Esc => {
                    self.close_modals();
                    Action::Idle
                },
                Key::Char(c) => {
                    if c == 'c' {
                        self.start_commit()
                    } else if c == '?' {
                        self.toggle_help();
                        Action::Idle
                    } else if c == 'd' {
                        self.toggle_debug_mode();
                        Action::Idle
                    } else if c == 'q' {
                        if self.help_modal.is_visible {
                            Action::Idle
                        } else {
                            Action::Quit
                        }
                    } else {
                        Action::Idle
                    }
                },
                _ => Action::Idle,
            }
        }
    }

    /// Sends a vertical move to the focused pane.
    pub fn navigate(&mut self, down: bool, steps: usize)
        ensures
            final(self)@ == old(self)@.navigate(down, steps as nat),
    {
        match self.focused_pane {
            FocusedPane::FileList => self.move_selection(down, steps),
            FocusedPane::Details => self.scroll_details(down, steps),
            FocusedPane::Debug => {},
        }
    }

    /// Moves the selection by `steps` rows, stopping at the first and the
    /// last row.
    pub fn move_selection(&mut self, down: bool, steps: usize)
        ensures
            final(self)@ == old(self)@.move_selection(down, steps as nat),
            final(self)@.files.len() > 0 ==> final(self)@.selected_index < final(self)@.files.len(),
    {
        let len = self.files.len();
        if len == 0 {
            return ;
        }
        if down {
            if steps >= len || self.selected_index >= len - steps {
                self.selected_index = len - 1;
            } else {
                self.selected_index = self.selected_index + steps;
            }
        } else {
            let at = if self.selected_index >= len {
                len - 1
            } else {
                self.selected_index
            };
            if steps >= at {
                self.selected_index = 0;
            } else {
                self.selected_index = at - steps;
            }
        }
    }

    /// Moves the selection one row up.
    pub fn move_selection_up(&mut self)
        ensures
            final(self)@ == old(self)@.move_selection(false, 1),
    {
        self.move_selection(false, 1)
    }

    /// Moves the selection one row down.
    pub fn move_selection_down(&mut self)
        ensures
            final(self)@ == old(self)@.move_selection(true, 1),
    {
        self.move_selection(true, 1)
    }

    /// Scrolls the details pane by `steps` lines.
    pub fn scroll_details(&mut self, down: bool, steps: usize)
        ensures
            final(self)@ == old(self)@.scroll_details(down, steps as nat),
    {
        if down {
            if steps > usize::MAX - self.details_scroll {
                self.details_scroll = usize::MAX;
            } else {
                self.details_scroll = self.details_scroll + steps;
            }
        } else if steps >= self.details_scroll {
            self.details_scroll = 0;
        } else {
            self.details_scroll = self.details_scroll - steps;
        }
    }

    /// Scrolls the details pane one line up.
    pub fn scroll_details_up(&mut self)
        ensures
            final(self)@ == old(self)@.scroll_details(false, 1),
    {
        self.scroll_details(false, 1)
    }

    /// Scrolls the details pane one line down.
    pub fn scroll_details_down(&mut self)
        ensures
            final(self)@ == old(self)@.scroll_details(true, 1),
    {
        self.scroll_details(true, 1)
    }

    /// Toggles the selected row: views a file, expands or collapses a
    /// directory.
    pub fn toggle_directory(&mut self) -> (action: Action)
        ensures
            (final(self)@, action@) == old(self)@.toggle_directory(),
    {
        if self.selected_index >= self.files.len() {
            return Action::Idle;
        }
        let path = self.files[self.selected_index].path();
        if !self.files[self.selected_index].is_dir {
            return Action::ShowDiff { path };
        }
        let key = key_of(&self.root_dir, &self.files[self.selected_index]);
        let was_expanded = match self.expanded_dirs.get(key.as_str()) {
            Some(flag) => *flag,
            None => false,
        };
        self.expanded_dirs.insert(key, !was_expanded);
        if was_expanded {
            self.collapse_directory(self.selected_index);
            Action::Idle
        } else {
            Action::ListDirectory { path }
        }
    }

    /// Collapses the row at `start_index`: removes its subtree, and flags
    /// every expanded directory in the subtree as collapsed.
    pub fn collapse_directory(&mut self, start_index: usize)
        ensures
            final(self)@ == old(self)@.collapse_directory(start_index as int),
    {
        if start_index >= self.files.len() {
            return ;
        }
        let end = subtree_end_of(&self.files, start_index);
        let ghost start = self@;
        let ghost removed = start.files.subrange(start_index + 1, end as int);
        let mut k: usize = start_index + 1;
        assert(removed.take(0) =~= Seq::<EntryModel>::empty());
        while k < end
            invariant
                start_index < k <= end <= self.files.len(),
                removed == start.files.subrange(start_index + 1, end as int),
                self@ == (AppModel {
                    expanded_dirs: contracted(
                        start.expanded_dirs,
                        start.root_dir,
                        removed.take(k - start_index - 1),
                    ),
                    ..start
                }),
            decreases end - k,
        {
            proof {
                let n = k - start_index - 1;
                assert(removed.take(n + 1).drop_last() =~= removed.take(n));
                assert(removed.take(n + 1).last() == self.files[k as int]@);
            }
            if self.files[k].is_dir {
                let key = key_of(&self.root_dir, &self.files[k]);
                let is_set = match self.expanded_dirs.get(key.as_str()) {
                    Some(flag) => *flag,
                    None => false,
                };
                if is_set {
                    self.expanded_dirs.insert(key, false);
                }
            }
            k += 1;
        }
        assert(removed.take(removed.len() as int) =~= removed);
        collapse_rows(&mut self.files, start_index);
    }

    /// Splices the listing of the selected directory in behind it, each
    /// row moved below the directory. Says whether it did; it does not where
    /// the selected row is no directory or a depth would not fit the machine
    /// word, and then nothing changes.
    pub fn insert_children(&mut self, children: Vec<FileEntry>) -> (inserted: bool)
        ensures
            final(self)@ == old(self)@.insert_children(children.deep_view()),
            inserted == old(self)@.accepts_children(children.deep_view()),
    {
        let i = self.selected_index;
        if i >= self.files.len() || !self.files[i].is_dir || self.files[i].depth == usize::MAX {
            return false;
        }
        let ghost rows = self.files.deep_view();
        match rebase_rows(children, self.files[i].depth + 1) {
            Ok(mut moved) => {
                let ghost run = moved.deep_view();
                let mut tail = self.files.split_off(i + 1);
                self.files.append(&mut moved);
                self.files.append(&mut tail);
                assert(self.files.deep_view() =~= rows.take(i + 1) + run + rows.skip(i + 1));
                true
            },
            Err(_) => false,
        }
    }

    /// Asks for every changed path to be staged; the commit dialog opens
    /// when `finish_staging` hears that it went well.
    pub fn start_commit(&mut self) -> (action: Action)
        ensures
            (final(self)@, action@) == old(self)@.start_commit(),
    {
        Action::StageAll
    }

    /// Takes the outcome of staging: opens the commit dialog if it went
    /// well, and else leaves everything as it is and gives the failure.
    pub fn finish_staging(&mut self, outcome: Result<(), String>) -> (result: Result<(), AppError>)
        ensures
            final(self)@ == old(self)@.finish_staging(outcome is Ok),
            outcome is Ok <==> result is Ok,
            outcome matches Err(message) ==> result->Err_0.kind == kind_of(Operation::Stage)
                && result->Err_0.message@ == message@,
    {
        match outcome {
            Ok(_) => {
                self.commit_modal.is_visible = true;
                Ok(())
            },
            Err(message) => Err(AppError::new(Operation::Stage, message.as_str())),
        }
    }

    /// Flips the help dialog.
    pub fn toggle_help(&mut self)
        ensures
            final(self)@ == old(self)@.toggle_help(),
    {
        self.help_modal.is_visible = !self.help_modal.is_visible;
    }

    /// Closes both dialogs and discards the commit message.
    pub fn close_modals(&mut self)
        ensures
            final(self)@ == old(self)@.close_modals(),
    {
        self.commit_modal.is_visible = false;
        self.commit_modal.content = String::new();
        self.help_modal.is_visible = false;
    }

    /// Asks for a commit with the message typed so far. The dialog stays
    /// as it is until `finish_commit` hears the outcome.
    pub fn perform_commit(&mut self) -> (action: Action)
        ensures
            (final(self)@, action@) == old(self)@.perform_commit(),
    {
        Action::Commit { message: self.commit_modal.content.clone() }
    }

    /// Takes the outcome of the listing of the selected directory. The
    /// rows are spliced in behind the directory as `insert_children` does.
    /// Where the listing could not be built, the one row that says so is
    /// spliced in, and the failure is given back.
    pub fn finish_listing(&mut self, outcome: Result<Vec<FileEntry>, String>) -> (result: Result<
        (),
        AppError,
    >)
        ensures
            outcome matches Ok(rows) ==> result is Ok && final(self)@ == old(self)@.finish_listing(
                Ok(rows.deep_view()),
            ),
            outcome matches Err(message) ==> result is Err && result->Err_0.kind == kind_of(
                Operation::QueryStatus,
            ) && result->Err_0.message@ == message@ && final(self)@ == old(self)@.finish_listing(
                Err(message@),
            ),
    {
        match outcome {
            Ok(rows) => {
                self.insert_children(rows);
                Ok(())
            },
            Err(message) => {
                let error = AppError::new(Operation::QueryStatus, message.as_str());
                let mut rows: Vec<FileEntry> = Vec::new();
                rows.push(FileEntry::error_row(&error));
                assert(rows.deep_view() =~= seq![
                    error_row_model(kind_of(Operation::QueryStatus), message@),
                ]);
                self.insert_children(rows);
                Err(error)
            },
        }
    }

    /// Takes the outcome of a commit and of the listing of the root that
    /// follows it. After a commit that went through: the dialog closes,
    /// nothing is expanded, the details pane is empty, and the tree is the
    /// fresh listing; where that could not be built, the tree is the one row
    /// that says so, and the failure is given back. After a commit that
    /// failed: nothing changes, so the dialog stays open with its message,
    /// and the failure is given back.
    pub fn finish_commit(
        &mut self,
        outcome: Result<Result<Vec<FileEntry>, String>, String>,
    ) -> (result: Result<(), AppError>)
        ensures
            outcome matches Ok(Ok(files)) ==> final(self)@ == old(self)@.commit_done(
                files.deep_view(),
            ) && result is Ok,
            outcome matches Ok(Err(message)) ==> final(self)@ == old(self)@.commit_done(
                seq![error_row_model(kind_of(Operation::QueryStatus), message@)],
            ) && result is Err && result->Err_0.kind == kind_of(Operation::QueryStatus)
                && result->Err_0.message@ == message@,
            outcome matches Err(message) ==> final(self)@ == old(self)@ && result is Err
                && result->Err_0.kind == kind_of(Operation::Commit) && result->Err_0.message@
                == message@,
    {
        match outcome {
            Ok(listing) => {
                let (files, result) = match listing {
                    Ok(files) => (files, Ok(())),
                    Err(message) => {
                        let error = AppError::new(Operation::QueryStatus, message.as_str());
                        let mut rows: Vec<FileEntry> = Vec::new();
                        rows.push(FileEntry::error_row(&error));
                        assert(rows.deep_view() =~= seq![
                            error_row_model(kind_of(Operation::QueryStatus), message@),
                        ]);
                        (rows, Err(error))
                    },
                };
                let len = files.len();
                self.commit_modal.is_visible = false;
                self.commit_modal.content = String::new();
                self.files = files;
                self.expanded_dirs.clear();
                self.right_pane_content = String::new();
                if len == 0 {
                    self.selected_index = 0;
                } else if self.selected_index >= len {
                    self.selected_index = len - 1;
                }
                result
            },
            Err(message) => Err(AppError::new(Operation::Commit, message.as_str())),
        }
    }

    /// Shows a failure in the details pane.
    pub fn show_error(&mut self, error: &AppError)
        ensures
            final(self)@ == (AppModel {
                right_pane_content: description(error.kind, error.message@),
                ..old(self)@
            }),
    {
        self.right_pane_content = error.describe();
    }

    /// Appends a line to the debug pane.
    pub fn debug_log(&mut self, message: &str)
        ensures
            final(self)@ == old(self)@.debug_log(message@),
    {
        self.debug_content.append(message);
        self.debug_content.push('\n');
    }

    /// Shows or hides the debug pane.
    pub fn toggle_debug_mode(&mut self)
        ensures
            final(self)@ == old(self)@.toggle_debug_mode(),
    {
        self.debug_mode = !self.debug_mode;
    }

    /// Focuses a pane.
    pub fn set_focused_pane(&mut self, pane: FocusedPane)
        ensures
            final(self)@ == old(self)@.set_focused_pane(pane),
    {
        self.focused_pane = pane;
    }
}

} // verus!
