use vstd::prelude::*;
use crate::model::{row_views, Modal, ModalV, Row, RowV};
use crate::render::{help_modal, spec_help_modal};
use crate::rows::{
    delete_modal_for, expanded_flag, kill_session_modal_for, rename_modal_for, row_target,
    spec_delete_modal, spec_kill_session_modal, spec_rename_modal, spec_row_target,
};
use crate::store::ExpandedState;
use crate::strs::{concat, copy_string, eq_str};

verus! {

// ---------------------------------------------------------------------------
// keys pressed on the list
/// What a key asks of the list.
#[derive(Clone, Copy, Debug, PartialEq, Eq, Structural)]
pub enum KeyCommand {
    Quit,
    Down,
    Up,
    First,
    Last,
    ToggleFold,
    Unfold,
    Fold,
    TogglePreview,
    Grow,
    Shrink,
    Help,
    Save,
    Rename,
    Reload,
    Kill,
    DefaultPath,
    Delete,
    Activate,
    Nothing,
}

pub open spec fn key_is(key: Seq<u8>, b: u8) -> bool {
    key.len() == 1 && key[0] == b
}

/// An escape sequence `ESC [ b`.
pub open spec fn csi_key(key: Seq<u8>, b: u8) -> bool {
    key.len() == 3 && key[0] == 0x1b && key[1] == 0x5b && key[2] == b
}

/// The command of a key: `q`, ctrl-c or alt-f quit; `j`/`k` and the arrows
/// move; `g`/`G` jump to the ends; space, `l`/right and `h`/left fold; the
/// other letters and signs as the help lists them.
pub open spec fn spec_key_command(key: Seq<u8>) -> KeyCommand {
    if key_is(key, 0x71) || key_is(key, 3) || (key.len() == 2 && key[0] == 0x1b && key[1] == 0x66) {
        KeyCommand::Quit
    } else if key_is(key, 0x6a) || csi_key(key, 0x42) {
        KeyCommand::Down
    } else if key_is(key, 0x6b) || csi_key(key, 0x41) {
        KeyCommand::Up
    } else if key_is(key, 0x67) {
        KeyCommand::First
    } else if key_is(key, 0x47) {
        KeyCommand::Last
    } else if key_is(key, 0x20) {
        KeyCommand::ToggleFold
    } else if key_is(key, 0x6c) || csi_key(key, 0x43) {
        KeyCommand::Unfold
    } else if key_is(key, 0x68) || csi_key(key, 0x44) {
        KeyCommand::Fold
    } else if key_is(key, 0x76) {
        KeyCommand::TogglePreview
    } else if key_is(key, 0x2b) || key_is(key, 0x3d) {
        KeyCommand::Grow
    } else if key_is(key, 0x2d) || key_is(key, 0x5f) {
        KeyCommand::Shrink
    } else if key_is(key, 0x3f) {
        KeyCommand::Help
    } else if key_is(key, 0x53) {
        KeyCommand::Save
    } else if key_is(key, 0x72) {
        KeyCommand::Rename
    } else if key_is(key, 0x52) {
        KeyCommand::Reload
    } else if key_is(key, 0x4b) {
        KeyCommand::Kill
    } else if key_is(key, 0x63) {
        KeyCommand::DefaultPath
    } else if key_is(key, 0x44) {
        KeyCommand::Delete
    } else if key_is(key, 0x0d) || key_is(key, 0x0a) {
        KeyCommand::Activate
    } else {
        KeyCommand::Nothing
    }
}

fn is_key(key: &[u8], b: u8) -> (r: bool)
    ensures
        r == key_is(key@, b),
{
    key.len() == 1 && key[0] == b
}

fn is_csi(key: &[u8], b: u8) -> (r: bool)
    ensures
        r == csi_key(key@, b),
{
    key.len() == 3 && key[0] == 0x1b && key[1] == 0x5b && key[2] == b
}

pub fn key_command(key: &[u8]) -> (r: KeyCommand)
    ensures
        r == spec_key_command(key@),
{
    if is_key(key, 0x71) || is_key(key, 3) || (key.len() == 2 && key[0] == 0x1b && key[1] == 0x66) {
        KeyCommand::Quit
    } else if is_key(key, 0x6a) || is_csi(key, 0x42) {
        KeyCommand::Down
    } else if is_key(key, 0x6b) || is_csi(key, 0x41) {
        KeyCommand::Up
    } else if is_key(key, 0x67) {
        KeyCommand::First
    } else if is_key(key, 0x47) {
        KeyCommand::Last
    } else if is_key(key, 0x20) {
        KeyCommand::ToggleFold
    } else if is_key(key, 0x6c) || is_csi(key, 0x43) {
        KeyCommand::Unfold
    } else if is_key(key, 0x68) || is_csi(key, 0x44) {
        KeyCommand::Fold
    } else if is_key(key, 0x76) {
        KeyCommand::TogglePreview
    } else if is_key(key, 0x2b) || is_key(key, 0x3d) {
        KeyCommand::Grow
    } else if is_key(key, 0x2d) || is_key(key, 0x5f) {
        KeyCommand::Shrink
    } else if is_key(key, 0x3f) {
        KeyCommand::Help
    } else if is_key(key, 0x53) {
        KeyCommand::Save
    } else if is_key(key, 0x72) {
        KeyCommand::Rename
    } else if is_key(key, 0x52) {
        KeyCommand::Reload
    } else if is_key(key, 0x4b) {
        KeyCommand::Kill
    } else if is_key(key, 0x63) {
        KeyCommand::DefaultPath
    } else if is_key(key, 0x44) {
        KeyCommand::Delete
    } else if is_key(key, 0x0d) || is_key(key, 0x0a) {
        KeyCommand::Activate
    } else {
        KeyCommand::Nothing
    }
}

/// What the screen holds besides the rows.
pub struct ViewState {
    pub selected: usize,
    pub preview_percent: usize,
    pub show_preview: bool,
    pub message: String,
    pub modal: Modal,
}

pub struct ViewStateV {
    pub selected: usize,
    pub preview_percent: usize,
    pub show_preview: bool,
    pub message: Seq<char>,
    pub modal: ModalV,
}

impl View for ViewState {
    type V = ViewStateV;

    open spec fn view(&self) -> ViewStateV {
        ViewStateV {
            selected: self.selected,
            preview_percent: self.preview_percent,
            show_preview: self.show_preview,
            message: self.message@,
            modal: self.modal@,
        }
    }
}

/// What a key leaves for the caller to do.
#[derive(Clone, Debug, PartialEq, Eq)]
pub enum KeyEffect {
    /// Nothing changed.
    Ignored,
    /// Draw again.
    Redraw,
    /// Leave the overview.
    Quit,
    /// The fold state changed: save it and reload the rows; after folding,
    /// select the session `collapsed` (`selection_after_fold`).
    FoldChanged { collapsed: Option<String> },
    /// Save the layout of session `id`, named `name`.
    SaveLayout { id: String, name: String },
    /// Collect the statistics again and reload everything.
    Refresh,
    /// Open the default-path input for the selected row
    /// (`default_path_modal_for`).
    DefaultPath,
    /// Restore the saved layout of row `index`.
    Restore(usize),
    /// Switch the client to this target and leave.
    Switch(String),
}

pub enum KeyEffectV {
    Ignored,
    Redraw,
    Quit,
    FoldChanged { collapsed: Option<Seq<char>> },
    SaveLayout { id: Seq<char>, name: Seq<char> },
    Refresh,
    DefaultPath,
    Restore(usize),
    Switch(Seq<char>),
}

impl View for KeyEffect {
    type V = KeyEffectV;

    open spec fn view(&self) -> KeyEffectV {
        match self {
            KeyEffect::Ignored => KeyEffectV::Ignored,
            KeyEffect::Redraw => KeyEffectV::Redraw,
            KeyEffect::Quit => KeyEffectV::Quit,
            KeyEffect::FoldChanged { collapsed } => KeyEffectV::FoldChanged {
                collapsed: crate::model::opt_view(*collapsed),
            },
            KeyEffect::SaveLayout { id, name } => KeyEffectV::SaveLayout { id: id@, name: name@ },
            KeyEffect::Refresh => KeyEffectV::Refresh,
            KeyEffect::DefaultPath => KeyEffectV::DefaultPath,
            KeyEffect::Restore(i) => KeyEffectV::Restore(*i),
            KeyEffect::Switch(t) => KeyEffectV::Switch(t@),
        }
    }
}

/// The session that folding on a row folds: the row's own or its window's.
pub open spec fn fold_name(r: RowV) -> Option<Seq<char>> {
    match r {
        RowV::Session(s) => Some(s.name),
        RowV::Window(w) => Some(w.session_name),
        RowV::WatchWindow(w) => Some(w.session_name),
        _ => None,
    }
}

/// The session whose layout `S` saves: the row's own or its window's.
pub open spec fn save_target(r: RowV) -> Option<(Seq<char>, Seq<char>)> {
    match r {
        RowV::Session(s) => Some((s.id, s.name)),
        RowV::Window(w) => Some((w.session_id, w.session_name)),
        RowV::WatchWindow(w) => Some((w.session_id, w.session_name)),
        _ => None,
    }
}

/// The view, the fold state and what is left to do after a key pressed on
/// the list (no modal open).
pub open spec fn spec_overview_key(
    st: ViewStateV,
    rows: Seq<RowV>,
    ex: Map<Seq<char>, bool>,
    key: Seq<u8>,
) -> (ViewStateV, Map<Seq<char>, bool>, KeyEffectV) {
    let sel = st.selected;
    let has_row = sel < rows.len();
    let row = rows[sel as int];
    match spec_key_command(key) {
        KeyCommand::Quit => (st, ex, KeyEffectV::Quit),
        KeyCommand::Down => if sel + 1 < rows.len() {
            (ViewStateV { selected: (sel + 1) as usize, ..st }, ex, KeyEffectV::Redraw)
        } else {
            (st, ex, KeyEffectV::Ignored)
        },
        KeyCommand::Up => (
            ViewStateV {
                selected: if sel > 0 {
                    (sel - 1) as usize
                } else {
                    0
                },
                ..st
            },
            ex,
            KeyEffectV::Redraw,
        ),
        KeyCommand::First => (ViewStateV { selected: 0, ..st }, ex, KeyEffectV::Redraw),
        KeyCommand::Last => (
            ViewStateV {
                selected: if rows.len() > 0 {
                    (rows.len() - 1) as usize
                } else {
                    0
                },
                ..st
            },
            ex,
            KeyEffectV::Redraw,
        ),
        KeyCommand::ToggleFold => if has_row && row is Session {
            (
                st,
                ex.insert(row->Session_0.name, !expanded_flag(ex, row->Session_0.name)),
                KeyEffectV::FoldChanged { collapsed: None },
            )
        } else {
            (st, ex, KeyEffectV::Ignored)
        },
        KeyCommand::Unfold => if has_row && row is Session {
            (st, ex.insert(row->Session_0.name, true), KeyEffectV::FoldChanged { collapsed: None })
        } else {
            (st, ex, KeyEffectV::Ignored)
        },
        KeyCommand::Fold => if has_row && fold_name(row) is Some {
            (
                st,
                ex.insert(fold_name(row).unwrap(), false),
                KeyEffectV::FoldChanged { collapsed: fold_name(row) },
            )
        } else {
            (st, ex, KeyEffectV::Ignored)
        },
        KeyCommand::TogglePreview => (
            ViewStateV { show_preview: !st.show_preview, ..st },
            ex,
            KeyEffectV::Redraw,
        ),
        KeyCommand::Grow => (
            ViewStateV {
                preview_percent: if st.preview_percent + 5 < 85 {
                    (st.preview_percent + 5) as usize
                } else {
                    85
                },
                ..st
            },
            ex,
            KeyEffectV::Redraw,
        ),
        KeyCommand::Shrink => (
            ViewStateV {
                preview_percent: if st.preview_percent >= 25 {
                    (st.preview_percent - 5) as usize
                } else {
                    20
                },
                ..st
            },
            ex,
            KeyEffectV::Redraw,
        ),
        KeyCommand::Help => (ViewStateV { modal: spec_help_modal(), ..st }, ex, KeyEffectV::Redraw),
        KeyCommand::Save => if has_row && save_target(row) is Some {
            (
                st,
                ex,
                KeyEffectV::SaveLayout { id: save_target(row).unwrap().0, name: save_target(row).unwrap().1 },
            )
        } else {
            (st, ex, KeyEffectV::Ignored)
        },
        KeyCommand::Rename => if has_row {
            (ViewStateV { modal: spec_rename_modal(row), ..st }, ex, KeyEffectV::Redraw)
        } else {
            (st, ex, KeyEffectV::Ignored)
        },
        KeyCommand::Reload => (st, ex, KeyEffectV::Refresh),
        KeyCommand::Kill => if has_row && spec_kill_session_modal(row) is Some {
            (
                ViewStateV { modal: spec_kill_session_modal(row).unwrap(), ..st },
                ex,
                KeyEffectV::Redraw,
            )
        } else {
            (st, ex, KeyEffectV::Ignored)
        },
        KeyCommand::DefaultPath => if has_row {
            (st, ex, KeyEffectV::DefaultPath)
        } else {
            (st, ex, KeyEffectV::Ignored)
        },
        KeyCommand::Delete => if has_row {
            (ViewStateV { modal: spec_delete_modal(row), ..st }, ex, KeyEffectV::Redraw)
        } else {
            (st, ex, KeyEffectV::Ignored)
        },
        KeyCommand::Activate => if has_row {
            if row is SavedSession {
                (st, ex, KeyEffectV::Restore(sel))
            } else {
                (st, ex, KeyEffectV::Switch(spec_row_target(row)))
            }
        } else {
            (st, ex, KeyEffectV::Ignored)
        },
        KeyCommand::Nothing => (st, ex, KeyEffectV::Ignored),
    }
}

/// Handles a key pressed on the list (no modal open).
pub fn overview_key(state: &mut ViewState, rows: &[Row], expanded: &mut ExpandedState, key: &[u8]) -> (r:
    KeyEffect)
    ensures
        (final(state)@, final(expanded)@, r@) == spec_overview_key(
            old(state)@,
            row_views(rows@),
            old(expanded)@,
            key@,
        ),
{
    let ghost rv = row_views(rows@);
    let sel = state.selected;
    let has_row = sel < rows.len();
    proof {
        if has_row {
            assert(rv[sel as int] == rows@[sel as int]@);
        }
    }
    match key_command(key) {
        KeyCommand::Quit => KeyEffect::Quit,
        KeyCommand::Down => {
            if sel < rows.len() && sel + 1 < rows.len() {
                state.selected = sel + 1;
                KeyEffect::Redraw
            } else {
                KeyEffect::Ignored
            }
        },
        KeyCommand::Up => {
            state.selected = if sel > 0 {
                sel - 1
            } else {
                0
            };
            KeyEffect::Redraw
        },
        KeyCommand::First => {
            state.selected = 0;
            KeyEffect::Redraw
        },
        KeyCommand::Last => {
            state.selected = if rows.len() > 0 {
                rows.len() - 1
            } else {
                0
            };
            KeyEffect::Redraw
        },
        KeyCommand::ToggleFold => {
            if has_row {
                if let Row::Session(s) = &rows[sel] {
                    let now = expanded.is_expanded(s.name.as_str());
                    expanded.insert(copy_string(&s.name), !now);
                    return KeyEffect::FoldChanged { collapsed: None };
                }
            }
            KeyEffect::Ignored
        },
        KeyCommand::Unfold => {
            if has_row {
                if let Row::Session(s) = &rows[sel] {
                    expanded.insert(copy_string(&s.name), true);
                    return KeyEffect::FoldChanged { collapsed: None };
                }
            }
            KeyEffect::Ignored
        },
        KeyCommand::Fold => {
            if has_row {
                let name = match &rows[sel] {
                    Row::Session(s) => Some(copy_string(&s.name)),
                    Row::Window(w) => Some(copy_string(&w.session_name)),
                    Row::WatchWindow(w) => Some(copy_string(&w.session_name)),
                    _ => None,
                };
                if let Some(n) = name {
                    expanded.insert(copy_string(&n), false);
                    return KeyEffect::FoldChanged { collapsed: Some(n) };
                }
            }
            KeyEffect::Ignored
        },
        KeyCommand::TogglePreview => {
            state.show_preview = !state.show_preview;
            KeyEffect::Redraw
        },
        KeyCommand::Grow => {
            state.preview_percent = if state.preview_percent < 80 {
                state.preview_percent + 5
            } else {
                85
            };
            KeyEffect::Redraw
        },
        KeyCommand::Shrink => {
            state.preview_percent = if state.preview_percent >= 25 {
                state.preview_percent - 5
            } else {
                20
            };
            KeyEffect::Redraw
        },
        KeyCommand::Help => {
            state.modal = help_modal();
            KeyEffect::Redraw
        },
        KeyCommand::Save => {
            if has_row {
                let target = match &rows[sel] {
                    Row::Session(s) => Some((copy_string(&s.id), copy_string(&s.name))),
                    Row::Window(w) => Some((copy_string(&w.session_id), copy_string(&w.session_name))),
                    Row::WatchWindow(w) => Some((copy_string(&w.session_id), copy_string(&w.session_name))),
                    _ => None,
                };
                if let Some((id, name)) = target {
                    return KeyEffect::SaveLayout { id, name };
                }
            }
            KeyEffect::Ignored
        },
        KeyCommand::Rename => {
            if has_row {
                state.modal = rename_modal_for(&rows[sel]);
                KeyEffect::Redraw
            } else {
                KeyEffect::Ignored
            }
        },
        KeyCommand::Reload => KeyEffect::Refresh,
        KeyCommand::Kill => {
            if has_row {
                if let Some(m) = kill_session_modal_for(&rows[sel]) {
                    state.modal = m;
                    return KeyEffect::Redraw;
                }
            }
            KeyEffect::Ignored
        },
        KeyCommand::DefaultPath => {
            if has_row {
                KeyEffect::DefaultPath
            } else {
                KeyEffect::Ignored
            }
        },
        KeyCommand::Delete => {
            if has_row {
                state.modal = delete_modal_for(&rows[sel]);
                KeyEffect::Redraw
            } else {
                KeyEffect::Ignored
            }
        },
        KeyCommand::Activate => {
            if has_row {
                if let Row::SavedSession(_) = &rows[sel] {
                    KeyEffect::Restore(sel)
                } else {
                    KeyEffect::Switch(row_target(&rows[sel]).to_string())
                }
            } else {
                KeyEffect::Ignored
            }
        },
        KeyCommand::Nothing => KeyEffect::Ignored,
    }
}

/// Where the selection goes after folding: onto the row of the folded
/// session, else it stays (within the rows).
pub open spec fn spec_selection_after_fold(rows: Seq<RowV>, name: Seq<char>, selected: nat) -> nat {
    match session_position(rows, name, 0) {
        Some(i) => i as nat,
        None => if selected < rows.len() {
            selected
        } else if rows.len() > 0 {
            (rows.len() - 1) as nat
        } else {
            0
        },
    }
}

pub open spec fn session_position(rows: Seq<RowV>, name: Seq<char>, from: int) -> Option<int>
    decreases rows.len() - from,
{
    if from < 0 || from >= rows.len() {
        None
    } else if rows[from] matches RowV::Session(s) && s.name == name {
        Some(from)
    } else {
        session_position(rows, name, from + 1)
    }
}

pub fn selection_after_fold(rows: &[Row], name: &str, selected: usize) -> (r: usize)
    ensures
        r == spec_selection_after_fold(row_views(rows@), name@, selected as nat),
{
    let ghost rv = row_views(rows@);
    let mut i: usize = 0;
    while i < rows.len()
        invariant
            i <= rows@.len(),
            rv == row_views(rows@),
            session_position(rv, name@, 0) == session_position(rv, name@, i as int),
        decreases rows.len() - i,
    {
        assert(rv[i as int] == rows@[i as int]@);
        if let Row::Session(s) = &rows[i] {
            if eq_str(s.name.as_str(), name) {
                return i;
            }
        }
        i += 1;
    }
    if selected < rows.len() {
        selected
    } else if rows.len() > 0 {
        rows.len() - 1
    } else {
        0
    }
}

/// The selection kept on the list: the last row when it was past it.
pub fn clamp_to_rows(selected: usize, len: usize) -> (r: usize)
    ensures
        r == (if selected < len {
            selected
        } else if len > 0 {
            (len - 1) as usize
        } else {
            0
        }),
{
    if selected < len {
        selected
    } else if len > 0 {
        len - 1
    } else {
        0
    }
}

/// The message after saving a layout, or after it failed.
pub fn save_message(name: &str, outcome: Result<(), String>) -> (r: String)
    ensures
        r@ == (match outcome {
            Ok(()) => "saved layout "@ + name@,
            Err(e) => "save failed: "@ + e@,
        }),
{
    match outcome {
        Ok(()) => concat("saved layout ", name),
        Err(e) => concat("save failed: ", e.as_str()),
    }
}

/// The message after restoring a layout failed.
pub fn restore_failed_message(e: &str) -> (r: String)
    ensures
        r@ == "restore failed: "@ + e@,
{
    concat("restore failed: ", e)
}

// ---------------------------------------------------------------------------
// what the keys keep
/// Keys pressed on a list with a row selected leave a row selected.
pub proof fn law_keys_keep_selection(st: ViewStateV, rows: Seq<RowV>, ex: Map<Seq<char>, bool>, key: Seq<u8>)
    requires
        st.selected < rows.len(),
    ensures
        spec_overview_key(st, rows, ex, key).0.selected < rows.len(),
{
}

/// The preview keeps between 20% and 85% of the screen.
pub proof fn law_preview_percent_in_range(
    st: ViewStateV,
    rows: Seq<RowV>,
    ex: Map<Seq<char>, bool>,
    key: Seq<u8>,
)
    requires
        20 <= st.preview_percent <= 85,
    ensures
        20 <= spec_overview_key(st, rows, ex, key).0.preview_percent <= 85,
{
}

/// `j` then `k` brings the selection back where it was, when `j` moved it.
pub proof fn law_down_then_up(st: ViewStateV, rows: Seq<RowV>, ex: Map<Seq<char>, bool>)
    requires
        st.selected + 1 < rows.len(),
        rows.len() <= usize::MAX,
    ensures
        ({
            let (st1, ex1, _) = spec_overview_key(st, rows, ex, seq![0x6au8]);
            spec_overview_key(st1, rows, ex1, seq![0x6bu8]).0.selected == st.selected
        }),
{
    assert(spec_key_command(seq![0x6au8]) == KeyCommand::Down);
    assert(spec_key_command(seq![0x6bu8]) == KeyCommand::Up);
    let (st1, ex1, _) = spec_overview_key(st, rows, ex, seq![0x6au8]);
    assert(st1.selected == st.selected + 1);
    assert(spec_overview_key(st1, rows, ex1, seq![0x6bu8]).0.selected == st1.selected - 1);
}

/// Space twice on a row leaves every session folded or unfolded as before.
pub proof fn law_fold_toggle_twice(st: ViewStateV, rows: Seq<RowV>, ex: Map<Seq<char>, bool>, name: Seq<char>)
    ensures
        ({
            let (st1, ex1, _) = spec_overview_key(st, rows, ex, seq![0x20u8]);
            let (_, ex2, _) = spec_overview_key(st1, rows, ex1, seq![0x20u8]);
            expanded_flag(ex2, name) == expanded_flag(ex, name)
        }),
{
    assert(spec_key_command(seq![0x20u8]) == KeyCommand::ToggleFold);
}

} // verus!
