//! The browser window's state and the decisions it makes: what a key or a
//! click leads to, which file operation to carry out, and what the status
//! bar and the title then say. Carrying out the operations (listing a
//! directory, trashing, copying, launching) is left to the caller, who
//! reports the outcome back.
use vstd::prelude::*;
use crate::fs::entry::{decimal, decimal_string, DirEntry, FileKind};
use crate::fs::listing::{is_shown, is_sorted_listing, list_dir, SortKey};
use crate::fs::ops::{
    mkdir_target, mkdir_target_view, name_error_text, rename_dest, rename_plan, RenameError,
    RenamePlan,
};
use crate::fs::path::{
    file_name_of, parent_path, path_eq, path_file_name, path_parent, same_path,
};

verus! {

/// The two questions the browser asks in its prompt bar.
#[derive(Clone, Copy, Debug, PartialEq, Eq, Structural)]
pub enum PromptKind {
    NewFolder,
    Rename,
}

/// What a paste will do with the path on the clipboard.
#[derive(Clone, Debug)]
pub enum ClipboardOp {
    Copy(String),
    Cut(String),
}

/// The state of a browser window.
pub struct Browser {
    pub cwd: String,
    pub show_hidden: bool,
    pub sort: SortKey,
    pub entries: Vec<DirEntry>,
    pub selected: Option<usize>,
    pub clipboard: Option<ClipboardOp>,
    pub prompt: Option<PromptKind>,
    pub status: String,
}

/// `a` followed by `b`.
fn concat(a: &str, b: &str) -> (r: String)
    ensures
        r@ == a@ + b@,
{
    let mut s = String::from_str(a);
    s.append(b);
    s
}

/// The status line after listing `cwd`: the directory and its item count.
pub open spec fn listing_status(cwd: Seq<char>, n: nat) -> Seq<char> {
    cwd + "  ·  "@ + decimal(n) + " items"@
}

/// The window title for `cwd`.
pub open spec fn title_text(cwd: Seq<char>) -> Seq<char> {
    "Pifile — "@ + cwd
}

/// The selection after a listing: the first row, if there is one.
pub open spec fn first_row(n: nat) -> Option<usize> {
    if n > 0 {
        Some(0)
    } else {
        None
    }
}

/// Whether `after` holds what `before` becomes on taking in `listing`, a
/// fresh reading of its directory: on success the shown entries of the
/// listing, sorted by `before`'s key, with the first row selected; on
/// failure the same rows and selection as before.
pub open spec fn took_in(after: Browser, before: Browser, listing: Result<Vec<DirEntry>, String>) -> bool {
    match listing {
        Ok(l) => {
            &&& is_sorted_listing(
                after.entries@,
                l@.filter(|e: DirEntry| is_shown(e, before.show_hidden)),
                before.sort,
            )
            &&& after.selected == first_row(after.entries@.len())
        },
        Err(_) => after.entries == before.entries && after.selected == before.selected,
    }
}

/// `after` is `before` with only the rows, the selection and the status
/// line replaced.
pub open spec fn rows_and_status_only(after: Browser, before: Browser) -> bool {
    after == (Browser {
        entries: after.entries,
        selected: after.selected,
        status: after.status,
        ..before
    })
}

/// The entry under the selection, if the selection is on a row.
pub open spec fn selected_view(b: &Browser) -> Option<DirEntry> {
    match b.selected {
        Some(i) => if i < b.entries@.len() {
            Some(b.entries@[i as int])
        } else {
            None
        },
        None => None,
    }
}

/// What opening the selected entry comes to.
#[derive(Clone, Debug)]
pub enum OpenStep {
    /// Nothing is selected.
    Nothing,
    /// Enter this directory: canonicalize it, `set_cwd`, then `reload`.
    EnterDir(String),
    /// Hand the file at `path` to the desktop's default application and
    /// report the outcome under `name`.
    Launch { path: String, name: String },
}

/// What the Enter key does.
#[derive(Clone, Copy, Debug, PartialEq, Eq, Structural)]
pub enum EnterAction {
    /// Confirm the open prompt.
    ConfirmPrompt,
    /// Open the selected entry.
    OpenSelected,
}

/// What confirming the prompt comes to.
#[derive(Clone, Debug)]
pub enum PromptStep {
    /// No prompt was open.
    Nothing,
    /// The request was refused; the message goes to the status line.
    Refused(String),
    /// Nothing to change on disk; report the message.
    Done(String),
    /// Create the folder `dest`; on success report `done`.
    CreateDir { dest: String, done: String },
    /// Rename `from` to `dest` unless `dest` exists; on success report `done`.
    Rename { from: String, dest: String, done: String },
}

impl Browser {
    /// A browser on `cwd` showing `listing`, the entries read from it (none
    /// when it could not be read): hidden entries left out, sorted by name,
    /// the first row selected.
    pub fn new(cwd: String, listing: Vec<DirEntry>) -> (b: Self)
        ensures
            b.cwd@ == cwd@,
            !b.show_hidden,
            b.sort == SortKey::Name,
            is_sorted_listing(
                b.entries@,
                listing@.filter(|e: DirEntry| is_shown(e, false)),
                SortKey::Name,
            ),
            b.selected == first_row(b.entries@.len()),
            b.clipboard is None,
            b.prompt is None,
            b.status@ == listing_status(cwd@, b.entries@.len()),
    {
        let entries = list_dir(listing, false, SortKey::Name);
        let n = entries.len();
        let status = Self::listing_status_of(cwd.as_str(), n);
        Browser {
            cwd,
            show_hidden: false,
            sort: SortKey::Name,
            selected: if n > 0 { Some(0) } else { None },
            entries,
            clipboard: None,
            prompt: None,
            status,
        }
    }

    fn listing_status_of(cwd: &str, n: usize) -> (s: String)
        ensures
            s@ == listing_status(cwd@, n as nat),
    {
        let a = concat(cwd, "  ·  ");
        let b = concat(a.as_str(), decimal_string(n as u64).as_str());
        let s = concat(b.as_str(), " items");
        assert(s@ =~= listing_status(cwd@, n as nat));
        s
    }

    /// The window title: `Pifile — ` and the current directory.
    pub fn title(&self) -> (t: String)
        ensures
            t@ == title_text(self.cwd@),
    {
        concat("Pifile — ", self.cwd.as_str())
    }

    /// The selected entry, if the selection is on a row.
    pub fn selected_entry(&self) -> (e: Option<&DirEntry>)
        ensures
            match (e, selected_view(self)) {
                (Some(x), Some(y)) => *x == y,
                (None, None) => true,
                _ => false,
            },
    {
        match self.selected {
            Some(i) => if i < self.entries.len() {
                Some(&self.entries[i])
            } else {
                None
            },
            None => None,
        }
    }

    /// Moves the selection to row `ix`.
    pub fn select(&mut self, ix: usize)
        ensures
            *final(self) == (Browser { selected: Some(ix), ..*old(self) }),
    {
        self.selected = Some(ix);
    }

    /// Replaces the status line.
    pub fn set_status(&mut self, text: String)
        ensures
            *final(self) == (Browser { status: text, ..*old(self) }),
    {
        self.status = text;
    }

    /// Takes in a fresh reading of the current directory: on success the
    /// listing replaces the rows, the first row is selected and the status
    /// line counts the items; on failure only the status line changes.
    pub fn reload(&mut self, listing: Result<Vec<DirEntry>, String>)
        ensures
            took_in(*final(self), *old(self), listing),
            rows_and_status_only(*final(self), *old(self)),
            final(self).status@ == match listing {
                Ok(_) => listing_status(old(self).cwd@, final(self).entries@.len()),
                Err(msg) => "error: "@ + msg@,
            },
    {
        match listing {
            Ok(l) => {
                let entries = list_dir(l, self.show_hidden, self.sort);
                let n = entries.len();
                self.selected = if n > 0 { Some(0) } else { None };
                self.entries = entries;
                self.status = Self::listing_status_of(self.cwd.as_str(), n);
            },
            Err(msg) => {
                self.status = concat("error: ", msg.as_str());
            },
        }
    }

    /// Moves to the directory `dir` (already canonical) and closes the
    /// prompt; the caller then lists it and calls `reload`.
    pub fn set_cwd(&mut self, dir: String)
        ensures
            *final(self) == (Browser { cwd: dir, prompt: None, ..*old(self) }),
    {
        self.cwd = dir;
        self.prompt = None;
    }

    /// The directory above the current one, unless there is none or it is
    /// the same directory.
    pub fn go_parent(&self) -> (p: Option<String>)
        ensures
            match p {
                Some(q) => path_parent(self.cwd@) == Some(q@) && !path_eq(q@, self.cwd@),
                None => match path_parent(self.cwd@) {
                    Some(q) => path_eq(q, self.cwd@),
                    None => true,
                },
            },
    {
        match parent_path(self.cwd.as_str()) {
            Some(parent) => if same_path(parent.as_str(), self.cwd.as_str()) {
                None
            } else {
                Some(parent)
            },
            None => None,
        }
    }

    /// Opens the selected entry: a directory is entered, anything else is
    /// launched (and the status line says so).
    pub fn open_selected(&mut self) -> (step: OpenStep)
        ensures
            match (step, selected_view(old(self))) {
                (OpenStep::Nothing, None) => *final(self) == *old(self),
                (OpenStep::EnterDir(p), Some(e)) => {
                    &&& e.kind == FileKind::Directory
                    &&& p@ == e.path@
                    &&& *final(self) == *old(self)
                },
                (OpenStep::Launch { path, name }, Some(e)) => {
                    &&& e.kind != FileKind::Directory
                    &&& path@ == e.path@
                    &&& name@ == launch_name(e.path@)
                    &&& final(self).status@ == opening_status(e.path@)
                    &&& *final(self) == (Browser { status: final(self).status, ..*old(self) })
                },
                _ => false,
            },
    {
        let target = match self.selected_entry() {
            None => return OpenStep::Nothing,
            Some(entry) => if entry.is_dir() {
                return OpenStep::EnterDir(entry.path.clone());
            } else {
                entry.path.clone()
            },
        };
        let name = self.open_with_system(target.as_str());
        OpenStep::Launch { path: target, name }
    }

    /// Announces that `path` is being opened with its default application;
    /// gives the name to report the outcome under.
    pub fn open_with_system(&mut self, path: &str) -> (name: String)
        ensures
            final(self).status@ == opening_status(path@),
            name@ == launch_name(path@),
            *final(self) == (Browser { status: final(self).status, ..*old(self) }),
    {
        let a = concat("opening ", path);
        self.status = concat(a.as_str(), "…");
        assert(self.status@ =~= opening_status(path@));
        match file_name_of(path) {
            Some(n) => n,
            None => String::from_str(path),
        }
    }

    /// Reports how launching `name` went.
    pub fn launched(&mut self, name: &str, result: Result<(), String>)
        ensures
            final(self).status@ == match result {
                Ok(()) => "opened "@ + name@,
                Err(e) => "open "@ + name@ + ": "@ + e@,
            },
            *final(self) == (Browser { status: final(self).status, ..*old(self) }),
    {
        match result {
            Ok(()) => {
                self.status = concat("opened ", name);
            },
            Err(e) => {
                let a = concat("open ", name);
                let b = concat(a.as_str(), ": ");
                self.status = concat(b.as_str(), e.as_str());
            },
        }
    }

    /// Reports a trash or delete of the entry named `name`: when it worked,
    /// the fresh listing of the directory is taken in and the status line
    /// names the entry after `verb`; otherwise it shows the error.
    pub fn removed(&mut self, verb: &str, name: &str, result: Result<Result<Vec<DirEntry>, String>, String>)
        ensures
            match result {
                Ok(listing) => {
                    &&& took_in(*final(self), *old(self), listing)
                    &&& rows_and_status_only(*final(self), *old(self))
                    &&& final(self).status@ == verb@ + " "@ + name@
                },
                Err(e) => *final(self) == (Browser { status: e, ..*old(self) }),
            },
    {
        match result {
            Ok(listing) => {
                self.reload(listing);
                let a = concat(verb, " ");
                self.status = concat(a.as_str(), name);
            },
            Err(e) => {
                self.status = e;
            },
        }
    }

    /// Puts the selected entry's path on the clipboard, to be copied or,
    /// when `cut`, moved by the next paste.
    pub fn copy_selected(&mut self, cut: bool)
        ensures
            match selected_view(old(self)) {
                None => *final(self) == *old(self),
                Some(e) => {
                    &&& *final(self) == (Browser {
                        clipboard: final(self).clipboard,
                        status: final(self).status,
                        ..*old(self)
                    })
                    &&& (cut ==> (final(self).clipboard matches Some(ClipboardOp::Cut(p)) && p@
                        == e.path@))
                    &&& (!cut ==> (final(self).clipboard matches Some(ClipboardOp::Copy(p)) && p@
                        == e.path@))
                    &&& final(self).status@ == (if cut { "cut"@ } else { "copied"@ })
                },
            },
    {
        let path = match self.selected_entry() {
            None => return,
            Some(entry) => entry.path.clone(),
        };
        self.clipboard = Some(if cut { ClipboardOp::Cut(path) } else { ClipboardOp::Copy(path) });
        self.status = String::from_str(if cut { "cut" } else { "copied" });
    }

    /// Reports a paste into the current directory: on success a cut is used
    /// up, the fresh listing is taken in and the status line names the
    /// destination; otherwise it shows the error.
    pub fn pasted(&mut self, result: Result<(String, Result<Vec<DirEntry>, String>), String>)
        ensures
            match result {
                Ok((dest, listing)) => {
                    &&& took_in(*final(self), *old(self), listing)
                    &&& final(self).status@ == "pasted "@ + dest@
                    &&& final(self).clipboard == if old(self).clipboard matches Some(ClipboardOp::Cut(_)) {
                        None
                    } else {
                        old(self).clipboard
                    }
                    &&& *final(self) == (Browser {
                        entries: final(self).entries,
                        selected: final(self).selected,
                        status: final(self).status,
                        clipboard: final(self).clipboard,
                        ..*old(self)
                    })
                },
                Err(e) => *final(self) == (Browser { status: e, ..*old(self) }),
            },
    {
        match result {
            Ok((dest, listing)) => {
                let cut = match &self.clipboard {
                    Some(ClipboardOp::Cut(_)) => true,
                    _ => false,
                };
                if cut {
                    self.clipboard = None;
                }
                self.reload(listing);
                self.status = concat("pasted ", dest.as_str());
            },
            Err(e) => {
                self.status = e;
            },
        }
    }

    /// Opens the prompt: an empty one for a new folder, one holding the
    /// selected name for a rename. Gives the text to put in the prompt, or
    /// `None` (and changes nothing) for a rename with no name to start from.
    pub fn begin_prompt(&mut self, kind: PromptKind) -> (seed: Option<String>)
        ensures
            kind == PromptKind::NewFolder ==> {
                &&& seed matches Some(s) && s@.len() == 0
                &&& *final(self) == (Browser { prompt: Some(kind), ..*old(self) })
            },
            kind == PromptKind::Rename ==> match selected_view(old(self)) {
                Some(e) if e.name@.len() > 0 => {
                    &&& seed matches Some(s) && s@ == e.name@
                    &&& *final(self) == (Browser { prompt: Some(kind), ..*old(self) })
                },
                _ => seed is None && *final(self) == *old(self),
            },
    {
        let seed = match kind {
            PromptKind::NewFolder => String::new(),
            PromptKind::Rename => match self.selected_entry() {
                Some(e) => e.name.clone(),
                None => String::new(),
            },
        };
        if kind == PromptKind::Rename && seed.as_str().is_empty() {
            return None;
        }
        self.prompt = Some(kind);
        Some(seed)
    }

    /// Closes the prompt without acting.
    pub fn cancel_prompt(&mut self)
        ensures
            *final(self) == (Browser { prompt: None, ..*old(self) }),
    {
        self.prompt = None;
    }

    /// Confirms the prompt with the text `name` and closes it: gives the
    /// folder to create or the rename to carry out, or the reason there is
    /// nothing to do.
    pub fn confirm_prompt(&mut self, name: &str) -> (step: PromptStep)
        ensures
            old(self).prompt is None ==> *final(self) == *old(self),
            old(self).prompt is Some ==> *final(self) == (Browser { prompt: None, ..*old(self) }),
            match old(self).prompt {
                None => step is Nothing,
                Some(PromptKind::NewFolder) => match (step, mkdir_target_view(old(self).cwd@, name@)) {
                    (PromptStep::CreateDir { dest, done }, Ok(d)) => dest@ == d && done@
                        == "created "@ + name@,
                    (PromptStep::Refused(msg), Err(e)) => msg@ == name_error_text(e),
                    _ => false,
                },
                Some(PromptKind::Rename) => match selected_view(old(self)) {
                    None => step matches PromptStep::Refused(msg) && msg@ == "nothing selected"@,
                    Some(e) => match (step, rename_dest(e.path@, name@)) {
                        (PromptStep::Done(msg), Ok(d)) => path_eq(d, e.path@) && msg@
                            == "renamed "@ + name@,
                        (PromptStep::Rename { from, dest, done }, Ok(d)) => !path_eq(d, e.path@)
                            && from@ == e.path@ && dest@ == d && done@ == "renamed "@ + name@,
                        (PromptStep::Refused(msg), Err(err)) => msg@ == rename_error_text(
                            err,
                            e.path@,
                        ),
                        _ => false,
                    },
                },
            },
    {
        let kind = match self.prompt {
            None => return PromptStep::Nothing,
            Some(k) => k,
        };
        self.prompt = None;
        match kind {
            PromptKind::NewFolder => match mkdir_target(self.cwd.as_str(), name) {
                Ok(dest) => PromptStep::CreateDir { dest, done: concat("created ", name) },
                Err(e) => PromptStep::Refused(e.message()),
            },
            PromptKind::Rename => {
                let from = match self.selected_entry() {
                    None => return PromptStep::Refused(String::from_str("nothing selected")),
                    Some(entry) => entry.path.clone(),
                };
                match rename_plan(from.as_str(), name) {
                    Ok(RenamePlan::Unchanged(_)) => PromptStep::Done(concat("renamed ", name)),
                    Ok(RenamePlan::Move(dest)) => PromptStep::Rename {
                        from,
                        dest,
                        done: concat("renamed ", name),
                    },
                    Err(err) => PromptStep::Refused(rename_error_message(err, from.as_str())),
                }
            },
        }
    }

    /// Reports a prompt's file operation: on success the fresh listing is
    /// taken in and the status line shows `done`; otherwise the error.
    pub fn prompt_finished(&mut self, done: String, result: Result<Result<Vec<DirEntry>, String>, String>)
        ensures
            match result {
                Ok(listing) => {
                    &&& took_in(*final(self), *old(self), listing)
                    &&& rows_and_status_only(*final(self), *old(self))
                    &&& final(self).status == done
                },
                Err(e) => *final(self) == (Browser { status: e, ..*old(self) }),
            },
    {
        match result {
            Ok(listing) => {
                self.reload(listing);
                self.status = done;
            },
            Err(e) => {
                self.status = e;
            },
        }
    }

    /// What the Enter key does: confirm the prompt while one is open, open
    /// the selected entry otherwise.
    pub fn enter_action(&self) -> (a: EnterAction)
        ensures
            a == (if self.prompt is Some {
                EnterAction::ConfirmPrompt
            } else {
                EnterAction::OpenSelected
            }),
    {
        match self.prompt {
            Some(_) => EnterAction::ConfirmPrompt,
            None => EnterAction::OpenSelected,
        }
    }

    /// Shows or hides dotfiles; the caller then lists the directory again.
    pub fn toggle_hidden(&mut self)
        ensures
            *final(self) == (Browser { show_hidden: !old(self).show_hidden, ..*old(self) }),
    {
        self.show_hidden = !self.show_hidden;
    }

    /// The label of the hidden-files button.
    pub fn hidden_label(&self) -> (s: &'static str)
        ensures
            s@ == if self.show_hidden { "Hide dotfiles"@ } else { "Show hidden"@ },
    {
        if self.show_hidden {
            "Hide dotfiles"
        } else {
            "Show hidden"
        }
    }

    /// Whether the sidebar place at `path` is the current directory.
    pub fn is_current(&self, path: &str) -> (r: bool)
        ensures
            r == path_eq(path@, self.cwd@),
    {
        same_path(path, self.cwd.as_str())
    }
}

/// The status line while a file is being opened.
pub open spec fn opening_status(path: Seq<char>) -> Seq<char> {
    "opening "@ + path + "…"@
}

/// The name a launch is reported under: the file name, or the whole path.
pub open spec fn launch_name(path: Seq<char>) -> Seq<char> {
    match path_file_name(path) {
        Some(n) => n,
        None => path,
    }
}

/// The message of a refused rename of `from`.
pub open spec fn rename_error_text(e: RenameError, from: Seq<char>) -> Seq<char> {
    match e {
        RenameError::BadName(n) => name_error_text(n),
        RenameError::NoParent => "no parent for "@ + from,
    }
}

/// The message of a refused rename of `from`.
pub fn rename_error_message(e: RenameError, from: &str) -> (s: String)
    ensures
        s@ == rename_error_text(e, from@),
{
    match e {
        RenameError::BadName(n) => n.message(),
        RenameError::NoParent => concat("no parent for ", from),
    }
}

/// The label of the prompt bar.
pub fn prompt_label(kind: PromptKind) -> (s: &'static str)
    ensures
        s@ == match kind {
            PromptKind::NewFolder => "New folder"@,
            PromptKind::Rename => "Rename"@,
        },
{
    match kind {
        PromptKind::NewFolder => "New folder",
        PromptKind::Rename => "Rename",
    }
}

/// How long the theme is left alone between checks: 400 ms, in nanoseconds.
pub open spec fn theme_check_interval_ns() -> int {
    400_000_000
}

/// Whether more time than the interval has passed since the last theme
/// check.
pub fn theme_check_due(elapsed_ns: u64) -> (r: bool)
    ensures
        r == (elapsed_ns > theme_check_interval_ns()),
{
    elapsed_ns > 400_000_000
}

} // verus!
