use vstd::prelude::*;
use crate::strs::{copy_string, copy_strings, views};

verus! {

/// A live tmux session as the overview lists it.
#[derive(Clone, Debug, PartialEq, Eq)]
pub struct Session {
    pub id: String,
    pub name: String,
    /// The name shown in the tree: the part below the parent session, with
    /// the special components spelled out.
    pub display_name: String,
    pub depth: usize,
    pub current: bool,
    pub saved_label: Option<String>,
    pub default_path: String,
}

pub struct SessionV {
    pub id: Seq<char>,
    pub name: Seq<char>,
    pub display_name: Seq<char>,
    pub depth: nat,
    pub current: bool,
    pub saved_label: Option<Seq<char>>,
    pub default_path: Seq<char>,
}

pub open spec fn opt_view(o: Option<String>) -> Option<Seq<char>> {
    match o {
        Some(s) => Some(s@),
        None => None,
    }
}

impl View for Session {
    type V = SessionV;

    open spec fn view(&self) -> SessionV {
        SessionV {
            id: self.id@,
            name: self.name@,
            display_name: self.display_name@,
            depth: self.depth as nat,
            current: self.current,
            saved_label: opt_view(self.saved_label),
            default_path: self.default_path@,
        }
    }
}

pub fn copy_opt_string(o: &Option<String>) -> (r: Option<String>)
    ensures
        opt_view(r) == opt_view(*o),
{
    match o {
        Some(s) => Some(copy_string(s)),
        None => None,
    }
}

impl Session {
    pub fn copy(&self) -> (r: Session)
        ensures
            r@ == self@,
    {
        Session {
            id: copy_string(&self.id),
            name: copy_string(&self.name),
            display_name: copy_string(&self.display_name),
            depth: self.depth,
            current: self.current,
            saved_label: copy_opt_string(&self.saved_label),
            default_path: copy_string(&self.default_path),
        }
    }
}

/// A tmux window with the labels of its panes.
#[derive(Clone, Debug, PartialEq, Eq)]
pub struct Window {
    pub session_id: String,
    pub session_name: String,
    pub depth: usize,
    pub id: String,
    pub index: String,
    pub name: String,
    pub active: bool,
    pub pane_labels: Vec<String>,
}

pub struct WindowV {
    pub session_id: Seq<char>,
    pub session_name: Seq<char>,
    pub depth: nat,
    pub id: Seq<char>,
    pub index: Seq<char>,
    pub name: Seq<char>,
    pub active: bool,
    pub pane_labels: Seq<Seq<char>>,
}

impl View for Window {
    type V = WindowV;

    open spec fn view(&self) -> WindowV {
        WindowV {
            session_id: self.session_id@,
            session_name: self.session_name@,
            depth: self.depth as nat,
            id: self.id@,
            index: self.index@,
            name: self.name@,
            active: self.active,
            pane_labels: views(self.pane_labels@),
        }
    }
}

impl Window {
    pub fn copy(&self) -> (r: Window)
        ensures
            r@ == self@,
    {
        Window {
            session_id: copy_string(&self.session_id),
            session_name: copy_string(&self.session_name),
            depth: self.depth,
            id: copy_string(&self.id),
            index: copy_string(&self.index),
            name: copy_string(&self.name),
            active: self.active,
            pane_labels: copy_strings(&self.pane_labels),
        }
    }
}

/// A pane as recorded in a saved layout.
#[derive(Clone, Debug, PartialEq, Eq)]
pub struct SavedPane {
    pub index: String,
    pub active: bool,
    pub cwd: String,
    pub command: String,
}

pub struct SavedPaneV {
    pub index: Seq<char>,
    pub active: bool,
    pub cwd: Seq<char>,
    pub command: Seq<char>,
}

impl View for SavedPane {
    type V = SavedPaneV;

    open spec fn view(&self) -> SavedPaneV {
        SavedPaneV {
            index: self.index@,
            active: self.active,
            cwd: self.cwd@,
            command: self.command@,
        }
    }
}

impl SavedPane {
    pub fn copy(&self) -> (r: SavedPane)
        ensures
            r@ == self@,
    {
        SavedPane {
            index: copy_string(&self.index),
            active: self.active,
            cwd: copy_string(&self.cwd),
            command: copy_string(&self.command),
        }
    }
}

pub open spec fn pane_views(v: Seq<SavedPane>) -> Seq<SavedPaneV> {
    v.map_values(|p: SavedPane| p@)
}

/// A window as recorded in a saved layout.
#[derive(Clone, Debug, PartialEq, Eq)]
pub struct SavedWindow {
    pub index: String,
    pub name: String,
    pub active: bool,
    pub layout: String,
    pub panes: Vec<SavedPane>,
}

pub struct SavedWindowV {
    pub index: Seq<char>,
    pub name: Seq<char>,
    pub active: bool,
    pub layout: Seq<char>,
    pub panes: Seq<SavedPaneV>,
}

impl View for SavedWindow {
    type V = SavedWindowV;

    open spec fn view(&self) -> SavedWindowV {
        SavedWindowV {
            index: self.index@,
            name: self.name@,
            active: self.active,
            layout: self.layout@,
            panes: pane_views(self.panes@),
        }
    }
}

pub fn copy_panes(v: &Vec<SavedPane>) -> (r: Vec<SavedPane>)
    ensures
        pane_views(r@) == pane_views(v@),
{
    let mut out: Vec<SavedPane> = Vec::new();
    let mut i: usize = 0;
    while i < v.len()
        invariant
            i <= v.len(),
            out@.len() == i,
            forall|k: int| 0 <= k < i ==> out@[k]@ == v@[k]@,
        decreases v.len() - i,
    {
        out.push(v[i].copy());
        i += 1;
    }
    assert(pane_views(out@) =~= pane_views(v@));
    out
}

impl SavedWindow {
    pub fn copy(&self) -> (r: SavedWindow)
        ensures
            r@ == self@,
    {
        SavedWindow {
            index: copy_string(&self.index),
            name: copy_string(&self.name),
            active: self.active,
            layout: copy_string(&self.layout),
            panes: copy_panes(&self.panes),
        }
    }
}

pub open spec fn window_views(v: Seq<SavedWindow>) -> Seq<SavedWindowV> {
    v.map_values(|w: SavedWindow| w@)
}

/// A session layout saved to disk.
#[derive(Clone, Debug, PartialEq, Eq)]
pub struct SavedSession {
    pub name: String,
    pub default_path: String,
    pub saved_label: String,
    pub windows: Vec<SavedWindow>,
}

pub struct SavedSessionV {
    pub name: Seq<char>,
    pub default_path: Seq<char>,
    pub saved_label: Seq<char>,
    pub windows: Seq<SavedWindowV>,
}

impl View for SavedSession {
    type V = SavedSessionV;

    open spec fn view(&self) -> SavedSessionV {
        SavedSessionV {
            name: self.name@,
            default_path: self.default_path@,
            saved_label: self.saved_label@,
            windows: window_views(self.windows@),
        }
    }
}

pub fn copy_saved_windows(v: &Vec<SavedWindow>) -> (r: Vec<SavedWindow>)
    ensures
        window_views(r@) == window_views(v@),
{
    let mut out: Vec<SavedWindow> = Vec::new();
    let mut i: usize = 0;
    while i < v.len()
        invariant
            i <= v.len(),
            out@.len() == i,
            forall|k: int| 0 <= k < i ==> out@[k]@ == v@[k]@,
        decreases v.len() - i,
    {
        out.push(v[i].copy());
        i += 1;
    }
    assert(window_views(out@) =~= window_views(v@));
    out
}

impl SavedSession {
    pub fn copy(&self) -> (r: SavedSession)
        ensures
            r@ == self@,
    {
        SavedSession {
            name: copy_string(&self.name),
            default_path: copy_string(&self.default_path),
            saved_label: copy_string(&self.saved_label),
            windows: copy_saved_windows(&self.windows),
        }
    }
}

pub open spec fn saved_views(v: Seq<SavedSession>) -> Seq<SavedSessionV> {
    v.map_values(|s: SavedSession| s@)
}

/// One line of the overview list.
#[derive(Clone, Debug, PartialEq, Eq)]
pub enum Row {
    WatchHeader,
    WatchWindow(Window),
    Session(Session),
    Window(Window),
    SavedSession(SavedSession),
}

pub enum RowV {
    WatchHeader,
    WatchWindow(WindowV),
    Session(SessionV),
    Window(WindowV),
    SavedSession(SavedSessionV),
}

impl View for Row {
    type V = RowV;

    open spec fn view(&self) -> RowV {
        match self {
            Row::WatchHeader => RowV::WatchHeader,
            Row::WatchWindow(w) => RowV::WatchWindow(w@),
            Row::Session(s) => RowV::Session(s@),
            Row::Window(w) => RowV::Window(w@),
            Row::SavedSession(s) => RowV::SavedSession(s@),
        }
    }
}

impl Row {
    pub fn copy(&self) -> (r: Row)
        ensures
            r@ == self@,
    {
        match self {
            Row::WatchHeader => Row::WatchHeader,
            Row::WatchWindow(w) => Row::WatchWindow(w.copy()),
            Row::Session(s) => Row::Session(s.copy()),
            Row::Window(w) => Row::Window(w.copy()),
            Row::SavedSession(s) => Row::SavedSession(s.copy()),
        }
    }
}

pub open spec fn row_views(v: Seq<Row>) -> Seq<RowV> {
    v.map_values(|r: Row| r@)
}

/// What a confirmation modal does once confirmed.
#[derive(Clone, Debug, PartialEq, Eq)]
pub enum ConfirmAction {
    KillSession { target: String, name: String },
    KillWindow { target: String, name: String },
    DeleteSaved { name: String },
}

pub enum ConfirmActionV {
    KillSession { target: Seq<char>, name: Seq<char> },
    KillWindow { target: Seq<char>, name: Seq<char> },
    DeleteSaved { name: Seq<char> },
}

impl View for ConfirmAction {
    type V = ConfirmActionV;

    open spec fn view(&self) -> ConfirmActionV {
        match self {
            ConfirmAction::KillSession { target, name } => ConfirmActionV::KillSession {
                target: target@,
                name: name@,
            },
            ConfirmAction::KillWindow { target, name } => ConfirmActionV::KillWindow {
                target: target@,
                name: name@,
            },
            ConfirmAction::DeleteSaved { name } => ConfirmActionV::DeleteSaved { name: name@ },
        }
    }
}

impl ConfirmAction {
    pub fn copy(&self) -> (r: ConfirmAction)
        ensures
            r@ == self@,
    {
        match self {
            ConfirmAction::KillSession { target, name } => ConfirmAction::KillSession {
                target: copy_string(target),
                name: copy_string(name),
            },
            ConfirmAction::KillWindow { target, name } => ConfirmAction::KillWindow {
                target: copy_string(target),
                name: copy_string(name),
            },
            ConfirmAction::DeleteSaved { name } => ConfirmAction::DeleteSaved {
                name: copy_string(name),
            },
        }
    }
}

/// What a text-input modal does with the entered value.
#[derive(Clone, Debug, PartialEq, Eq)]
pub enum InputAction {
    RenameSession { target: String, old_name: String },
    RenameWindow { target: String, old_name: String },
    RenameSavedSession { old_name: String },
    SetDefaultPath { target: String, name: String },
    AddTarget { session_target: Option<String>, session_name: Option<String>, cwd: String },
}

pub enum InputActionV {
    RenameSession { target: Seq<char>, old_name: Seq<char> },
    RenameWindow { target: Seq<char>, old_name: Seq<char> },
    RenameSavedSession { old_name: Seq<char> },
    SetDefaultPath { target: Seq<char>, name: Seq<char> },
    AddTarget {
        session_target: Option<Seq<char>>,
        session_name: Option<Seq<char>>,
        cwd: Seq<char>,
    },
}

impl View for InputAction {
    type V = InputActionV;

    open spec fn view(&self) -> InputActionV {
        match self {
            InputAction::RenameSession { target, old_name } => InputActionV::RenameSession {
                target: target@,
                old_name: old_name@,
            },
            InputAction::RenameWindow { target, old_name } => InputActionV::RenameWindow {
                target: target@,
                old_name: old_name@,
            },
            InputAction::RenameSavedSession { old_name } => InputActionV::RenameSavedSession {
                old_name: old_name@,
            },
            InputAction::SetDefaultPath { target, name } => InputActionV::SetDefaultPath {
                target: target@,
                name: name@,
            },
            InputAction::AddTarget { session_target, session_name, cwd } => InputActionV::AddTarget {
                session_target: opt_view(*session_target),
                session_name: opt_view(*session_name),
                cwd: cwd@,
            },
        }
    }
}

impl InputAction {
    pub fn copy(&self) -> (r: InputAction)
        ensures
            r@ == self@,
    {
        match self {
            InputAction::RenameSession { target, old_name } => InputAction::RenameSession {
                target: copy_string(target),
                old_name: copy_string(old_name),
            },
            InputAction::RenameWindow { target, old_name } => InputAction::RenameWindow {
                target: copy_string(target),
                old_name: copy_string(old_name),
            },
            InputAction::RenameSavedSession { old_name } => InputAction::RenameSavedSession {
                old_name: copy_string(old_name),
            },
            InputAction::SetDefaultPath { target, name } => InputAction::SetDefaultPath {
                target: copy_string(target),
                name: copy_string(name),
            },
            InputAction::AddTarget { session_target, session_name, cwd } => InputAction::AddTarget {
                session_target: copy_opt_string(session_target),
                session_name: copy_opt_string(session_name),
                cwd: copy_string(cwd),
            },
        }
    }
}

/// The modal dialog shown over the overview, if any.
#[derive(Clone, Debug, PartialEq, Eq)]
pub enum Modal {
    Closed,
    Confirm { title: String, action: ConfirmAction },
    Input { title: String, value: String, action: InputAction },
    Info { title: String, lines: Vec<String> },
}

pub enum ModalV {
    Closed,
    Confirm { title: Seq<char>, action: ConfirmActionV },
    Input { title: Seq<char>, value: Seq<char>, action: InputActionV },
    Info { title: Seq<char>, lines: Seq<Seq<char>> },
}

impl View for Modal {
    type V = ModalV;

    open spec fn view(&self) -> ModalV {
        match self {
            Modal::Closed => ModalV::Closed,
            Modal::Confirm { title, action } => ModalV::Confirm { title: title@, action: action@ },
            Modal::Input { title, value, action } => ModalV::Input {
                title: title@,
                value: value@,
                action: action@,
            },
            Modal::Info { title, lines } => ModalV::Info { title: title@, lines: views(lines@) },
        }
    }
}

impl Modal {
    pub fn copy(&self) -> (r: Modal)
        ensures
            r@ == self@,
    {
        match self {
            Modal::Closed => Modal::Closed,
            Modal::Confirm { title, action } => Modal::Confirm {
                title: copy_string(title),
                action: action.copy(),
            },
            Modal::Input { title, value, action } => Modal::Input {
                title: copy_string(title),
                value: copy_string(value),
                action: action.copy(),
            },
            Modal::Info { title, lines } => Modal::Info {
                title: copy_string(title),
                lines: copy_strings(lines),
            },
        }
    }
}

} // verus!
