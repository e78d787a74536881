//! The studio's editor actions: keyboard shortcuts, the document's saved
//! state, the window title, panel visibility and names of new objects.
use crate::line_numbers::{decimal, push_decimal};
use vstd::prelude::*;

verus! {

/// What the insert menu can create.
#[derive(Clone, Copy, Debug, PartialEq, Eq, Structural)]
pub enum InsertKind {
    Part,
    Sphere,
    ServerScript,
    LocalScript,
    ModuleScript,
}

/// An action of the editor's menus and shortcuts.
#[derive(Clone, Copy, Debug, PartialEq, Eq, Structural)]
pub enum EditorAction {
    NewProject,
    Open,
    Save,
    SaveAs,
    Exit,
    Undo,
    Redo,
    Cut,
    Copy,
    Paste,
    Duplicate,
    Rename,
    Delete,
    SelectAll,
    Insert(InsertKind, Option<u64>),
    ToggleExplorer,
    ToggleProperties,
    ToggleScriptEditor,
    FrameSelected,
    ResetCamera,
    ResetLayout,
    ToggleSimulation,
    TogglePlaytest,
    StopTesting,
}

/// Which keys were pressed this frame, and the modifiers held.
#[derive(Clone, Copy, Debug, PartialEq, Eq, Structural)]
pub struct ShortcutKeys {
    pub command: bool,
    pub shift: bool,
    pub n: bool,
    pub o: bool,
    pub s: bool,
    pub z: bool,
    pub y: bool,
    pub x: bool,
    pub c: bool,
    pub v: bool,
    pub d: bool,
    pub a: bool,
    pub f2: bool,
    pub delete: bool,
    pub f: bool,
    pub f5: bool,
    pub f6: bool,
}

/// The action of the first shortcut that applies, in the editor's order.
pub open spec fn shortcut_action(k: ShortcutKeys) -> Option<EditorAction> {
    if k.command && k.n {
        Some(EditorAction::NewProject)
    } else if k.command && k.o {
        Some(EditorAction::Open)
    } else if k.command && k.shift && k.s {
        Some(EditorAction::SaveAs)
    } else if k.command && k.s {
        Some(EditorAction::Save)
    } else if k.command && k.shift && k.z {
        Some(EditorAction::Redo)
    } else if k.command && k.z {
        Some(EditorAction::Undo)
    } else if k.command && k.y {
        Some(EditorAction::Redo)
    } else if k.command && k.x {
        Some(EditorAction::Cut)
    } else if k.command && k.c {
        Some(EditorAction::Copy)
    } else if k.command && k.v {
        Some(EditorAction::Paste)
    } else if k.command && k.d {
        Some(EditorAction::Duplicate)
    } else if k.command && k.a {
        Some(EditorAction::SelectAll)
    } else if k.f2 {
        Some(EditorAction::Rename)
    } else if k.delete {
        Some(EditorAction::Delete)
    } else if k.f {
        Some(EditorAction::FrameSelected)
    } else if k.f6 {
        Some(EditorAction::ToggleSimulation)
    } else if k.f5 {
        Some(
            if k.shift {
                EditorAction::StopTesting
            } else {
                EditorAction::TogglePlaytest
            },
        )
    } else {
        None
    }
}

/// The editor action that this frame's keys ask for, if any.
pub fn editor_shortcut(k: ShortcutKeys) -> (r: Option<EditorAction>)
    ensures
        r == shortcut_action(k),
{
    if k.command && k.n {
        Some(EditorAction::NewProject)
    } else if k.command && k.o {
        Some(EditorAction::Open)
    } else if k.command && k.shift && k.s {
        Some(EditorAction::SaveAs)
    } else if k.command && k.s {
        Some(EditorAction::Save)
    } else if k.command && k.shift && k.z {
        Some(EditorAction::Redo)
    } else if k.command && k.z {
        Some(EditorAction::Undo)
    } else if k.command && k.y {
        Some(EditorAction::Redo)
    } else if k.command && k.x {
        Some(EditorAction::Cut)
    } else if k.command && k.c {
        Some(EditorAction::Copy)
    } else if k.command && k.v {
        Some(EditorAction::Paste)
    } else if k.command && k.d {
        Some(EditorAction::Duplicate)
    } else if k.command && k.a {
        Some(EditorAction::SelectAll)
    } else if k.f2 {
        Some(EditorAction::Rename)
    } else if k.delete {
        Some(EditorAction::Delete)
    } else if k.f {
        Some(EditorAction::FrameSelected)
    } else if k.f6 {
        Some(EditorAction::ToggleSimulation)
    } else if k.f5 {
        Some(
            if k.shift {
                EditorAction::StopTesting
            } else {
                EditorAction::TogglePlaytest
            },
        )
    } else {
        None
    }
}

/// An action that waits until the document's changes are saved or discarded.
#[derive(Clone, Copy, Debug, PartialEq, Eq, Structural)]
pub enum PendingDocumentAction {
    NewProject,
    Open,
    Exit,
}

/// Whether the open document has unsaved changes, and what waits on them.
pub struct DocumentState {
    pub dirty: bool,
    pub pending: Option<PendingDocumentAction>,
    pub error: Option<String>,
}

/// What the engine must do for a document action.
#[derive(Clone, Copy, Debug, PartialEq, Eq, Structural)]
pub enum DocumentEffect {
    /// Nothing now.
    Idle,
    /// Ask the user for a project to open.
    OpenDialog,
    /// Ask the user where to save.
    SaveDialog,
    /// Save to the current project path.
    SaveToPath,
    /// Queue a "save as" for the next frame.
    QueueSaveAs,
    /// Quit the application.
    ExitNow,
    /// Send undo to the history.
    SendUndo,
    /// Send redo to the history.
    SendRedo,
}

/// Whether an action changes the scene: undo, redo, delete and insert
/// always do; duplicate and paste when they spawned something.
pub open spec fn marks_changed(action: EditorAction, spawned: bool) -> bool {
    match action {
        EditorAction::Undo | EditorAction::Redo | EditorAction::Delete | EditorAction::Insert(_, _) => true,
        EditorAction::Duplicate | EditorAction::Paste => spawned,
        _ => false,
    }
}

impl DocumentState {
    /// A clean document.
    pub fn new() -> (r: Self)
        ensures
            !r.dirty,
            r.pending is None,
            r.error is None,
    {
        DocumentState { dirty: false, pending: None, error: None }
    }

    /// Carries out the document side of an editor action. Opening, exiting
    /// and starting a new project wait while there are unsaved changes
    /// (a new project always waits for confirmation); saving without a path
    /// turns into "save as". Undo, redo, delete and insert mark the document
    /// changed, and so do duplicate and paste when they spawned something
    /// (`spawned`). Other actions leave the document alone.
    pub fn apply_action(&mut self, action: EditorAction, has_save_path: bool, spawned: bool) -> (r:
        DocumentEffect)
        ensures
            final(self).error == old(self).error,
            r == match action {
                EditorAction::Undo => DocumentEffect::SendUndo,
                EditorAction::Redo => DocumentEffect::SendRedo,
                EditorAction::Save => if has_save_path {
                    DocumentEffect::SaveToPath
                } else {
                    DocumentEffect::QueueSaveAs
                },
                EditorAction::SaveAs => DocumentEffect::SaveDialog,
                EditorAction::Open => if old(self).dirty {
                    DocumentEffect::Idle
                } else {
                    DocumentEffect::OpenDialog
                },
                EditorAction::Exit => if old(self).dirty {
                    DocumentEffect::Idle
                } else {
                    DocumentEffect::ExitNow
                },
                _ => DocumentEffect::Idle,
            },
            final(self).dirty == (old(self).dirty || marks_changed(action, spawned)),
            final(self).pending == match action {
                EditorAction::NewProject => Some(PendingDocumentAction::NewProject),
                EditorAction::Open => if old(self).dirty {
                    Some(PendingDocumentAction::Open)
                } else {
                    old(self).pending
                },
                EditorAction::Exit => if old(self).dirty {
                    Some(PendingDocumentAction::Exit)
                } else {
                    old(self).pending
                },
                _ => old(self).pending,
            },
    {
        match action {
            EditorAction::Undo => {
                self.dirty = true;
                DocumentEffect::SendUndo
            },
            EditorAction::Redo => {
                self.dirty = true;
                DocumentEffect::SendRedo
            },
            EditorAction::Save => {
                if has_save_path {
                    DocumentEffect::SaveToPath
                } else {
                    DocumentEffect::QueueSaveAs
                }
            },
            EditorAction::SaveAs => DocumentEffect::SaveDialog,
            EditorAction::Delete | EditorAction::Insert(_, _) => {
                self.dirty = true;
                DocumentEffect::Idle
            },
            EditorAction::Duplicate | EditorAction::Paste => {
                if spawned {
                    self.dirty = true;
                }
                DocumentEffect::Idle
            },
            EditorAction::Open => {
                if self.dirty {
                    self.pending = Some(PendingDocumentAction::Open);
                    DocumentEffect::Idle
                } else {
                    DocumentEffect::OpenDialog
                }
            },
            EditorAction::NewProject => {
                self.pending = Some(PendingDocumentAction::NewProject);
                DocumentEffect::Idle
            },
            EditorAction::Exit => {
                if self.dirty {
                    self.pending = Some(PendingDocumentAction::Exit);
                    DocumentEffect::Idle
                } else {
                    DocumentEffect::ExitNow
                }
            },
            _ => DocumentEffect::Idle,
        }
    }

    /// Once the document is clean, the waiting action (if any) is taken out to be run.
    pub fn take_ready_pending(&mut self) -> (r: Option<PendingDocumentAction>)
        ensures
            final(self).dirty == old(self).dirty,
            final(self).error == old(self).error,
            !old(self).dirty ==> r == old(self).pending && final(self).pending is None,
            old(self).dirty ==> r is None && final(self).pending == old(self).pending,
    {
        if self.dirty {
            None
        } else {
            let p = self.pending;
            self.pending = None;
            p
        }
    }

    /// "Discard" in the unsaved-changes dialog: the changes no longer hold the action back.
    pub fn discard_changes(&mut self)
        ensures
            !final(self).dirty,
            final(self).pending == old(self).pending,
            final(self).error == old(self).error,
    {
        self.dirty = false;
    }

    /// "Cancel" in the unsaved-changes dialog: the waiting action is dropped.
    pub fn cancel_pending(&mut self)
        ensures
            final(self).dirty == old(self).dirty,
            final(self).pending is None,
            final(self).error == old(self).error,
    {
        self.pending = None;
    }

    /// A save ended: on success the document is clean; on failure it keeps
    /// its changes and the error `Could not save project: ` followed by the
    /// reason is shown.
    pub fn save_finished(&mut self, outcome: Result<(), String>)
        ensures
            final(self).pending == old(self).pending,
            match outcome {
                Ok(()) => !final(self).dirty && final(self).error == old(self).error,
                Err(reason) => final(self).dirty == old(self).dirty && (final(self).error matches Some(
                    m,
                ) && m@ == "Could not save project: "@ + reason@),
            },
    {
        match outcome {
            Ok(()) => {
                self.dirty = false;
            },
            Err(reason) => {
                let mut message = String::from_str("Could not save project: ");
                message.append(reason.as_str());
                self.error = Some(message);
            },
        }
    }

    /// The error window was closed.
    pub fn dismiss_error(&mut self)
        ensures
            final(self).error is None,
            final(self).dirty == old(self).dirty,
            final(self).pending == old(self).pending,
    {
        self.error = None;
    }

    /// A save finished: the document is clean.
    pub fn saved(&mut self)
        ensures
            !final(self).dirty,
            final(self).pending == old(self).pending,
            final(self).error == old(self).error,
    {
        self.dirty = false;
    }

    /// Any later frame with a change to the scene marks the document
    /// changed; the first frame, when the scene is being set up, does not.
    pub fn track_document_changes(&mut self, initialized: &mut bool, changed: bool)
        ensures
            *final(initialized),
            final(self).dirty == (old(self).dirty || (*old(initialized) && changed)),
            final(self).pending == old(self).pending,
            final(self).error == old(self).error,
    {
        if !*initialized {
            *initialized = true;
            return;
        }
        if changed {
            self.dirty = true;
        }
    }
}

/// The actions a cut stands for: a copy, then a delete.
pub fn expand_cut() -> (r: Vec<EditorAction>)
    ensures
        r@ == seq![EditorAction::Copy, EditorAction::Delete],
{
    let mut v = Vec::new();
    v.push(EditorAction::Copy);
    v.push(EditorAction::Delete);
    v
}

/// Which of the editor's panels are shown.
#[derive(Clone, Copy, Debug, PartialEq, Eq, Structural)]
pub struct PanelVisibility {
    pub explorer_visible: bool,
    pub properties_visible: bool,
    pub script_editor_visible: bool,
}

impl PanelVisibility {
    /// All panels shown, as after a layout reset.
    pub fn new() -> (r: Self)
        ensures
            r.explorer_visible && r.properties_visible && r.script_editor_visible,
    {
        PanelVisibility { explorer_visible: true, properties_visible: true, script_editor_visible: true }
    }

    /// The panel toggles and the layout reset; other actions change nothing.
    pub fn apply_action(&mut self, action: EditorAction)
        ensures
            final(self).explorer_visible == match action {
                EditorAction::ToggleExplorer => !old(self).explorer_visible,
                EditorAction::ResetLayout => true,
                _ => old(self).explorer_visible,
            },
            final(self).properties_visible == match action {
                EditorAction::ToggleProperties => !old(self).properties_visible,
                EditorAction::ResetLayout => true,
                _ => old(self).properties_visible,
            },
            final(self).script_editor_visible == match action {
                EditorAction::ToggleScriptEditor => !old(self).script_editor_visible,
                EditorAction::ResetLayout => true,
                _ => old(self).script_editor_visible,
            },
    {
        match action {
            EditorAction::ToggleExplorer => {
                self.explorer_visible = !self.explorer_visible;
            },
            EditorAction::ToggleProperties => {
                self.properties_visible = !self.properties_visible;
            },
            EditorAction::ToggleScriptEditor => {
                self.script_editor_visible = !self.script_editor_visible;
            },
            EditorAction::ResetLayout => {
                *self = PanelVisibility::new();
            },
            _ => {},
        }
    }
}

/// The title of the studio window: the project's file name, a star while
/// there are unsaved changes, and the application's name.
pub open spec fn window_title_text(stem: Option<Seq<char>>, dirty: bool) -> Seq<char> {
    (match stem {
        Some(s) => s,
        None => "Untitled"@,
    }) + (if dirty {
        "*"@
    } else {
        ""@
    }) + " — RaveEngine Studio"@
}

/// The window title for a project whose file name without extension is
/// `stem` (`None`: not saved yet).
pub fn update_studio_window_title(stem: Option<&str>, dirty: bool) -> (r: String)
    ensures
        r@ == window_title_text(
            match stem {
                Some(s) => Some(s@),
                None => None,
            },
            dirty,
        ),
{
    let mut title = match stem {
        Some(s) => String::from_str(s),
        None => String::from_str("Untitled"),
    };
    if dirty {
        title.append("*");
    } else {
        title.append("");
    }
    title.append(" — RaveEngine Studio");
    title
}

/// The name of a copy.
pub fn copy_name(name: &str) -> (r: String)
    ensures
        r@ == name@ + " - Copy"@,
{
    let mut copy = String::from_str(name);
    copy.append(" - Copy");
    copy
}

/// How many parts the editor has spawned.
pub struct BrickSpawnerCount {
    pub count: u32,
}

/// The name of the next part, `Part` followed by the count, which goes up by one.
pub fn next_part_name(counter: &mut BrickSpawnerCount) -> (r: String)
    requires
        old(counter).count < u32::MAX,
    ensures
        r@ == "Part"@ + decimal(old(counter).count as nat),
        final(counter).count == old(counter).count + 1,
{
    let index = counter.count;
    counter.count = counter.count + 1;
    let mut name = String::from_str("Part");
    push_decimal(&mut name, index as usize);
    name
}

} // verus!
