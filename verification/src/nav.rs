//! The navigation controller: one current directory, two panes, two
//! selection cursors, and the transitions that keyboard input drives.
//!
//! The controller is a state machine. `step_state` and `step_action` say,
//! at the specification level, what one key does to the state and what
//! outside work it asks for; `handle_key` is the executable transition and
//! is proved to agree with both. Directory listings and the opening of
//! files are outside work: the embedding program performs them and feeds
//! the outcome back through `apply_load`, so a failed listing provably
//! leaves the state untouched.

use vstd::prelude::*;
use crate::listing::{RawEntry, EntryView, EntryKind, IoAccessError, listed_paths, list_folders,
    list_files, lemma_listed_paths_from_entries, pane_path_from};
use crate::path::{parent_of, join_path, plain_name, child_of, parent_dir, lemma_parent_of_join};

verus! {

/// One key press, as the input source reports it.
#[derive(Clone, Copy, Debug, PartialEq, Eq)]
pub enum Key {
    Up,
    Down,
    Left,
    Right,
    Enter,
    Tab,
    Backspace,
    Char(char),
    Other,
}

/// What the embedding program must do after a transition: nothing, open a
/// file with the operating system's handler, list a directory and feed the
/// outcome to `App::apply_load`, or leave the input loop.
#[derive(Debug, PartialEq, Eq)]
pub enum Action {
    Idle,
    Open(String),
    Load(String),
    Quit,
}

/// The mathematical content of an `Action`.
#[verifier::ext_equal]
pub ghost enum ActionView {
    Idle,
    Open(Seq<char>),
    Load(Seq<char>),
    Quit,
}

impl View for Action {
    type V = ActionView;

    open spec fn view(&self) -> ActionView {
        match self {
            Action::Idle => ActionView::Idle,
            Action::Open(p) => ActionView::Open(p@),
            Action::Load(p) => ActionView::Load(p@),
            Action::Quit => ActionView::Quit,
        }
    }
}

/// The mathematical content of the navigation state.
#[verifier::ext_equal]
pub ghost struct AppView {
    pub current_dir: Seq<char>,
    pub folders: Seq<Seq<char>>,
    pub files: Seq<Seq<char>>,
    pub selected_folder: int,
    pub selected_file: int,
}

impl AppView {
    /// The state invariant: the directory path is non-empty, every pane
    /// entry is an immediate child path of it, and each cursor is inside
    /// its pane (resting at zero when the pane is empty).
    pub open spec fn wf(self) -> bool {
        &&& self.current_dir.len() > 0
        &&& (forall|i: int| 0 <= i < self.folders.len() ==> child_of(
            self.current_dir,
            #[trigger] self.folders[i],
        ))
        &&& (forall|i: int| 0 <= i < self.files.len() ==> child_of(
            self.current_dir,
            #[trigger] self.files[i],
        ))
        &&& if self.folders.len() == 0 {
            self.selected_folder == 0
        } else {
            0 <= self.selected_folder < self.folders.len()
        }
        &&& if self.files.len() == 0 {
            self.selected_file == 0
        } else {
            0 <= self.selected_file < self.files.len()
        }
    }
}

/// The state reached by loading directory `dir` whose listing reported the
/// entries `es`: both panes rebuilt, both cursors reset.
pub open spec fn loaded_view(dir: Seq<char>, es: Seq<EntryView>) -> AppView {
    AppView {
        current_dir: dir,
        folders: listed_paths(dir, es, EntryKind::Folder),
        files: listed_paths(dir, es, EntryKind::File),
        selected_folder: 0,
        selected_file: 0,
    }
}

/// Loading any listing of a non-empty directory path yields a well-formed
/// state: in particular, the folder pane holds only entries the listing
/// classified as directories, and the file pane only regular files.
pub proof fn lemma_loaded_view_wf(dir: Seq<char>, es: Seq<EntryView>)
    requires
        dir.len() > 0,
    ensures
        loaded_view(dir, es).wf(),
{
    let lv = loaded_view(dir, es);
    lemma_listed_paths_from_entries(dir, es, EntryKind::Folder);
    lemma_listed_paths_from_entries(dir, es, EntryKind::File);
    assert forall|i: int| 0 <= i < lv.folders.len() implies child_of(
        dir,
        #[trigger] lv.folders[i],
    ) by {
        assert(pane_path_from(dir, es, EntryKind::Folder, lv.folders[i]));
        let n = choose|n: Seq<char>|
            plain_name(n) && lv.folders[i] == join_path(dir, n) && exists|j: int|
                0 <= j < es.len() && es[j].kind == EntryKind::Folder && #[trigger] es[j].name == n;
        assert(plain_name(n) && lv.folders[i] == join_path(dir, n));
    }
    assert forall|i: int| 0 <= i < lv.files.len() implies child_of(dir, #[trigger] lv.files[i]) by {
        assert(pane_path_from(dir, es, EntryKind::File, lv.files[i]));
        let n = choose|n: Seq<char>|
            plain_name(n) && lv.files[i] == join_path(dir, n) && exists|j: int|
                0 <= j < es.len() && es[j].kind == EntryKind::File && #[trigger] es[j].name == n;
        assert(plain_name(n) && lv.files[i] == join_path(dir, n));
    }
}

/// Where a cursor at `sel` lands when asked to move by `delta` in a pane
/// of `len` entries: clamped to the pane, and zero in an empty pane.
pub open spec fn move_sel(sel: int, delta: int, len: int) -> int {
    if len <= 0 {
        0
    } else if sel + delta < 0 {
        0
    } else if sel + delta > len - 1 {
        len - 1
    } else {
        sel + delta
    }
}

/// A moved cursor never leaves its pane, whatever the move asked for:
/// never below zero, never at or past the pane's length, and exactly zero
/// in an empty pane.
pub proof fn lemma_move_sel_in_bounds(sel: int, delta: int, len: int)
    ensures
        0 <= move_sel(sel, delta, len),
        len > 0 ==> move_sel(sel, delta, len) < len,
        len <= 0 ==> move_sel(sel, delta, len) == 0,
{
}

/// What one key press does to the navigation state.
pub open spec fn step_state(v: AppView, key: Key) -> AppView {
    match key {
        Key::Down => AppView { selected_file: move_sel(v.selected_file, 1, v.files.len() as int), ..v },
        Key::Up => AppView { selected_file: move_sel(v.selected_file, -1, v.files.len() as int), ..v },
        Key::Right => AppView {
            selected_folder: move_sel(v.selected_folder, 1, v.folders.len() as int),
            ..v
        },
        Key::Left => AppView {
            selected_folder: move_sel(v.selected_folder, -1, v.folders.len() as int),
            ..v
        },
        _ => v,
    }
}

/// What outside work one key press asks for.
pub open spec fn step_action(v: AppView, key: Key) -> ActionView {
    match key {
        Key::Enter => if v.files.len() > 0 {
            ActionView::Open(v.files[v.selected_file])
        } else {
            ActionView::Idle
        },
        Key::Tab => if v.folders.len() > 0 {
            ActionView::Load(v.folders[v.selected_folder])
        } else {
            ActionView::Idle
        },
        Key::Backspace => match parent_of(v.current_dir) {
            Some(p) => ActionView::Load(p),
            None => ActionView::Idle,
        },
        Key::Char(c) => if c == 'q' {
            ActionView::Quit
        } else {
            ActionView::Idle
        },
        _ => ActionView::Idle,
    }
}

/// Every key press preserves the state invariant.
pub proof fn lemma_step_state_preserves_wf(v: AppView, key: Key)
    requires
        v.wf(),
    ensures
        step_state(v, key).wf(),
{
}

/// The state reached by a whole sequence of key presses.
pub open spec fn run_keys(v: AppView, keys: Seq<Key>) -> AppView
    decreases keys.len(),
{
    if keys.len() == 0 {
        v
    } else {
        run_keys(step_state(v, keys[0]), keys.drop_first())
    }
}

/// However many cursor moves and other keys arrive, in whatever order, the
/// state stays well formed: each cursor remains inside its pane, or at
/// zero when its pane is empty — it never underflows and never leaves the
/// pane's bounds.
pub proof fn lemma_any_key_sequence_keeps_cursors_in_bounds(v: AppView, keys: Seq<Key>)
    requires
        v.wf(),
    ensures
        run_keys(v, keys).wf(),
    decreases keys.len(),
{
    if keys.len() > 0 {
        lemma_step_state_preserves_wf(v, keys[0]);
        lemma_any_key_sequence_keeps_cursors_in_bounds(step_state(v, keys[0]), keys.drop_first());
    }
}

/// Descending is only reachable from a non-empty folder pane: on an empty
/// one the key asks for nothing, and the state is unchanged.
pub proof fn lemma_descend_on_empty_is_noop(v: AppView)
    requires
        v.folders.len() == 0,
    ensures
        step_state(v, Key::Tab) == v,
        step_action(v, Key::Tab) == ActionView::Idle,
{
}

/// Descending into the selected folder and then ascending leads back to
/// the original directory, whatever the two listings reported; only the
/// cursors differ, both being reset to zero rather than restored.
pub proof fn lemma_descend_ascend_round_trip(v: AppView, down: Seq<EntryView>, up: Seq<EntryView>)
    requires
        v.wf(),
        v.folders.len() > 0,
    ensures
        step_action(v, Key::Tab) == ActionView::Load(v.folders[v.selected_folder]),
        parent_of(loaded_view(v.folders[v.selected_folder], down).current_dir) == Some(
            v.current_dir,
        ),
        step_action(loaded_view(v.folders[v.selected_folder], down), Key::Backspace)
            == ActionView::Load(v.current_dir),
        loaded_view(v.current_dir, up).current_dir == v.current_dir,
        loaded_view(v.current_dir, up).selected_folder == 0,
        loaded_view(v.current_dir, up).selected_file == 0,
{
    let target = v.folders[v.selected_folder];
    assert(child_of(v.current_dir, target));
    let n = choose|n: Seq<char>| plain_name(n) && target == #[trigger] join_path(v.current_dir, n);
    lemma_parent_of_join(v.current_dir, n);
}

/// The navigation state: the directory on display, its two panes, and the
/// selection cursor of each pane.
///
/// The fields are public so that an embedding program can render them;
/// they should only ever be changed through the transition methods, which
/// maintain the invariant `self@.wf()`.
pub struct App {
    /// Child paths of `current_dir` listed as directories, sorted by name.
    pub folders: Vec<String>,
    /// Child paths of `current_dir` listed as regular files, sorted by name.
    pub files: Vec<String>,
    /// Cursor into `folders`; `0` when `folders` is empty.
    pub selected_folder: usize,
    /// Cursor into `files`; `0` when `files` is empty.
    pub selected_file: usize,
    /// The directory currently on display.
    pub current_dir: String,
}

impl View for App {
    type V = AppView;

    open spec fn view(&self) -> AppView {
        AppView {
            current_dir: self.current_dir@,
            folders: self.folders.deep_view(),
            files: self.files.deep_view(),
            selected_folder: self.selected_folder as int,
            selected_file: self.selected_file as int,
        }
    }
}

/// The clamped cursor move on machine integers.
fn moved_index(sel: usize, delta: i32, len: usize) -> (r: usize)
    requires
        len == 0 ==> sel == 0,
        len > 0 ==> sel < len,
    ensures
        r as int == move_sel(sel as int, delta as int, len as int),
{
    if len == 0 {
        return 0;
    }
    if delta >= 0 {
        let step = delta as usize;
        let room = len - 1 - sel;
        if step <= room {
            sel + step
        } else {
            len - 1
        }
    } else {
        let step = (-(delta as i64)) as usize;
        if step <= sel {
            sel - step
        } else {
            0
        }
    }
}

impl App {
    /// Builds the starting state: the initial directory together with the
    /// panes its listing yields. A program that could not read the initial
    /// directory passes an empty listing.
    pub fn new(initial_path: &str, entries: Vec<RawEntry>) -> (app: App)
        requires
            initial_path@.len() > 0,
        ensures
            app@ == loaded_view(initial_path@, entries.deep_view()),
            app@.wf(),
    {
        let folders = list_folders(initial_path, &entries);
        let files = list_files(initial_path, &entries);
        let app = App {
            folders,
            files,
            selected_folder: 0,
            selected_file: 0,
            current_dir: initial_path.to_owned(),
        };
        proof {
            assert(app@ =~= loaded_view(initial_path@, entries.deep_view()));
            lemma_loaded_view_wf(initial_path@, entries.deep_view());
        }
        app
    }

    /// Re-points the state at `dir` with the entries its listing reported:
    /// both panes are rebuilt and both cursors reset to zero.
    pub fn change_dir(&mut self, dir: String, entries: Vec<RawEntry>)
        requires
            dir@.len() > 0,
        ensures
            final(self)@ == loaded_view(dir@, entries.deep_view()),
            final(self)@.wf(),
    {
        self.folders = list_folders(dir.as_str(), &entries);
        self.files = list_files(dir.as_str(), &entries);
        self.current_dir = dir;
        self.selected_folder = 0;
        self.selected_file = 0;
        proof {
            assert(self@ =~= loaded_view(self.current_dir@, entries.deep_view()));
            lemma_loaded_view_wf(self.current_dir@, entries.deep_view());
        }
    }

    /// Applies the outcome of a directory listing that a `Load` action
    /// asked for. A successful listing moves the state to `dir`; a failed
    /// one leaves the state exactly as it was and hands the error back.
    pub fn apply_load(&mut self, dir: String, outcome: Result<Vec<RawEntry>, IoAccessError>) -> (r:
        Result<(), IoAccessError>)
        requires
            dir@.len() > 0,
        ensures
            match outcome {
                Ok(entries) => final(self)@ == loaded_view(dir@, entries.deep_view())
                    && final(self)@.wf() && r is Ok,
                Err(e) => final(self)@ == old(self)@ && r == Err::<(), IoAccessError>(e),
            },
    {
        match outcome {
            Ok(entries) => {
                self.change_dir(dir, entries);
                Ok(())
            },
            Err(e) => Err(e),
        }
    }

    /// Moves the file cursor by `delta`, clamped to the file pane.
    pub fn move_file_selection(&mut self, delta: i32)
        requires
            old(self)@.wf(),
        ensures
            final(self)@ == (AppView {
                selected_file: move_sel(
                    old(self)@.selected_file,
                    delta as int,
                    old(self)@.files.len() as int,
                ),
                ..old(self)@
            }),
            final(self)@.wf(),
    {
        self.selected_file = moved_index(self.selected_file, delta, self.files.len());
        proof {
            assert(final(self)@ =~= (AppView {
                selected_file: move_sel(
                    old(self)@.selected_file,
                    delta as int,
                    old(self)@.files.len() as int,
                ),
                ..old(self)@
            }));
        }
    }

    /// Moves the folder cursor by `delta`, clamped to the folder pane.
    pub fn move_folder_selection(&mut self, delta: i32)
        requires
            old(self)@.wf(),
        ensures
            final(self)@ == (AppView {
                selected_folder: move_sel(
                    old(self)@.selected_folder,
                    delta as int,
                    old(self)@.folders.len() as int,
                ),
                ..old(self)@
            }),
            final(self)@.wf(),
    {
        self.selected_folder = moved_index(self.selected_folder, delta, self.folders.len());
        proof {
            assert(final(self)@ =~= (AppView {
                selected_folder: move_sel(
                    old(self)@.selected_folder,
                    delta as int,
                    old(self)@.folders.len() as int,
                ),
                ..old(self)@
            }));
        }
    }

    /// The folder a descent would enter: the one under the folder cursor,
    /// or nothing when the folder pane is empty.
    pub fn descend_target(&self) -> (r: Option<String>)
        requires
            self@.wf(),
        ensures
            match r {
                Some(p) => self@.folders.len() > 0 && p@ == self@.folders[self@.selected_folder],
                None => self@.folders.len() == 0,
            },
    {
        if self.folders.len() > 0 {
            Some(self.folders[self.selected_folder].clone())
        } else {
            None
        }
    }

    /// The parent an ascent would enter, or nothing where the current
    /// directory has no parent.
    pub fn ascend_target(&self) -> (r: Option<String>)
        ensures
            match r {
                Some(p) => parent_of(self@.current_dir) == Some(p@),
                None => parent_of(self@.current_dir) is None,
            },
    {
        parent_dir(self.current_dir.as_str())
    }

    /// The file an open request would dispatch: the one under the file
    /// cursor, or nothing when the file pane is empty.
    pub fn open_selected_file(&self) -> (r: Option<String>)
        requires
            self@.wf(),
        ensures
            match r {
                Some(p) => self@.files.len() > 0 && p@ == self@.files[self@.selected_file],
                None => self@.files.len() == 0,
            },
    {
        if self.files.len() > 0 {
            Some(self.files[self.selected_file].clone())
        } else {
            None
        }
    }

    /// Applies one key press: moves a cursor in place and reports the
    /// outside work the key asks for. The result agrees exactly with the
    /// specification-level machine `step_state` / `step_action`.
    pub fn handle_key(&mut self, key: Key) -> (a: Action)
        requires
            old(self)@.wf(),
        ensures
            final(self)@ == step_state(old(self)@, key),
            a@ == step_action(old(self)@, key),
            final(self)@.wf(),
    {
        match key {
            Key::Down => {
                self.move_file_selection(1);
                Action::Idle
            },
            Key::Up => {
                self.move_file_selection(-1);
                Action::Idle
            },
            Key::Right => {
                self.move_folder_selection(1);
                Action::Idle
            },
            Key::Left => {
                self.move_folder_selection(-1);
                Action::Idle
            },
            Key::Enter => match self.open_selected_file() {
                Some(p) => Action::Open(p),
                None => Action::Idle,
            },
            Key::Tab => match self.descend_target() {
                Some(p) => Action::Load(p),
                None => Action::Idle,
            },
            Key::Backspace => match self.ascend_target() {
                Some(p) => Action::Load(p),
                None => Action::Idle,
            },
            Key::Char(c) => {
                if c == 'q' {
                    Action::Quit
                } else {
                    Action::Idle
                }
            },
            Key::Other => Action::Idle,
        }
    }
}

} // verus!
