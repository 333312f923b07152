//! The checks and plans behind creating, renaming, copying and moving files:
//! which names are acceptable and which paths the operations act on.
use vstd::prelude::*;
use crate::text::{chars_of, chars_eq_str, contains_char, has_char, string_of, trim, trim_chars};
use super::path::{
    extension_of, file_stem_of, join_path, parent_path, path_eq, path_extension, path_file_stem,
    path_join, path_parent, same_path,
};
use super::entry::{decimal, decimal_string};

verus! {

/// Why a name was refused.
#[derive(Clone, Copy, Debug, PartialEq, Eq, Structural)]
pub enum NameError {
    /// Nothing but whitespace.
    Empty,
    /// Holds a `/` or a NUL character.
    NotSingleComponent,
    /// `.` or `..`.
    Reserved,
}

impl NameError {
    /// The message shown for the error.
    pub fn message(&self) -> (s: String)
        ensures
            s@ == name_error_text(*self),
    {
        match self {
            NameError::Empty => String::from_str("name is empty"),
            NameError::NotSingleComponent => String::from_str(
                "name must be a single path component",
            ),
            NameError::Reserved => String::from_str("invalid name"),
        }
    }
}

/// The message of each name error.
pub open spec fn name_error_text(e: NameError) -> Seq<char> {
    match e {
        NameError::Empty => "name is empty"@,
        NameError::NotSingleComponent => "name must be a single path component"@,
        NameError::Reserved => "invalid name"@,
    }
}

/// The verdict on a new file or folder name, judged once surrounding
/// whitespace is dropped.
pub open spec fn name_verdict(name: Seq<char>) -> Result<(), NameError> {
    let n = trim(name);
    if n.len() == 0 {
        Err(NameError::Empty)
    } else if has_char(n, '/') || has_char(n, '\0') {
        Err(NameError::NotSingleComponent)
    } else if n == "."@ || n == ".."@ {
        Err(NameError::Reserved)
    } else {
        Ok(())
    }
}

/// Checks that `name` can name a single file or folder.
pub fn validate_name(name: &str) -> (r: Result<(), NameError>)
    ensures
        r == name_verdict(name@),
{
    let chars = chars_of(name);
    let n = trim_chars(&chars);
    if n.len() == 0 {
        return Err(NameError::Empty);
    }
    if contains_char(&n, '/') || contains_char(&n, '\0') {
        return Err(NameError::NotSingleComponent);
    }
    if chars_eq_str(&n, ".") || chars_eq_str(&n, "..") {
        return Err(NameError::Reserved);
    }
    Ok(())
}

/// The path a new folder named `name` gets inside `parent`.
pub open spec fn mkdir_target_view(parent: Seq<char>, name: Seq<char>) -> Result<Seq<char>, NameError> {
    match name_verdict(name) {
        Err(e) => Err(e),
        Ok(()) => Ok(path_join(parent, trim(name))),
    }
}

/// Checks a new folder name and gives the path the folder will have.
pub fn mkdir_target(parent: &str, name: &str) -> (r: Result<String, NameError>)
    ensures
        match (r, mkdir_target_view(parent@, name@)) {
            (Ok(p), Ok(q)) => p@ == q,
            (Err(e), Err(f)) => e == f,
            _ => false,
        },
{
    match validate_name(name) {
        Err(e) => Err(e),
        Ok(()) => {
            let trimmed = string_of(&trim_chars(&chars_of(name)));
            Ok(join_path(parent, trimmed.as_str()))
        },
    }
}

/// Why a rename cannot go ahead.
#[derive(Clone, Copy, Debug, PartialEq, Eq, Structural)]
pub enum RenameError {
    /// The new name is not acceptable.
    BadName(NameError),
    /// The path has no parent directory to rename within.
    NoParent,
}

/// What a rename comes to.
#[derive(Clone, Debug)]
pub enum RenamePlan {
    /// The new path is the old one: nothing to do.
    Unchanged(String),
    /// Move the file to the new path, unless something is already there.
    Move(String),
}

/// The path a rename gives: the new name, trimmed, beside the old path.
pub open spec fn rename_dest(from: Seq<char>, new_name: Seq<char>) -> Result<Seq<char>, RenameError> {
    match name_verdict(new_name) {
        Err(e) => Err(RenameError::BadName(e)),
        Ok(()) => match path_parent(from) {
            None => Err(RenameError::NoParent),
            Some(p) => Ok(path_join(p, trim(new_name))),
        },
    }
}

/// Plans renaming `from` to `new_name`: checks the name, finds the new path
/// beside the old one and tells whether anything moves.
pub fn rename_plan(from: &str, new_name: &str) -> (r: Result<RenamePlan, RenameError>)
    ensures
        match (r, rename_dest(from@, new_name@)) {
            (Ok(RenamePlan::Unchanged(d)), Ok(e)) => d@ == e && path_eq(e, from@),
            (Ok(RenamePlan::Move(d)), Ok(e)) => d@ == e && !path_eq(e, from@),
            (Err(x), Err(y)) => x == y,
            _ => false,
        },
{
    match validate_name(new_name) {
        Err(e) => Err(RenameError::BadName(e)),
        Ok(()) => match parent_path(from) {
            None => Err(RenameError::NoParent),
            Some(p) => {
                let trimmed = string_of(&trim_chars(&chars_of(new_name)));
                let dest = join_path(p.as_str(), trimmed.as_str());
                if same_path(dest.as_str(), from) {
                    Ok(RenamePlan::Unchanged(dest))
                } else {
                    Ok(RenamePlan::Move(dest))
                }
            },
        },
    }
}

/// How many numbered names a copy tries before giving up on a free one.
pub open spec fn max_attempts() -> int {
    1000
}

/// The name of the `attempt`-th candidate for a copy of `name`: the name
/// itself first, then `stem (n)` with the extension kept, as in
/// `notes (2).txt`.
pub open spec fn numbered_name(name: Seq<char>, attempt: int) -> Seq<char> {
    if attempt == 0 {
        name
    } else {
        let stem = match path_file_stem(name) {
            Some(s) => s,
            None => name,
        };
        let ext = match path_extension(name) {
            Some(e) => seq!['.'] + e,
            None => Seq::empty(),
        };
        stem + seq![' ', '('] + decimal(attempt as nat) + seq![')'] + ext
    }
}

/// The `attempt`-th destination tried for a copy of `name` into `dir`.
pub fn unique_candidate(dir: &str, name: &str, attempt: u32) -> (r: String)
    ensures
        r@ == path_join(dir@, numbered_name(name@, attempt as int)),
{
    if attempt == 0 {
        return join_path(dir, name);
    }
    let stem = match file_stem_of(name) {
        Some(s) => s,
        None => String::from_str(name),
    };
    let mut v = chars_of(stem.as_str());
    v.push(' ');
    v.push('(');
    let mut digits = chars_of(decimal_string(attempt as u64).as_str());
    v.append(&mut digits);
    v.push(')');
    match extension_of(name) {
        Some(e) => {
            v.push('.');
            let mut ev = chars_of(e.as_str());
            v.append(&mut ev);
        },
        None => {},
    }
    let file = string_of(&v);
    assert(file@ =~= numbered_name(name@, attempt as int));
    join_path(dir, file.as_str())
}

/// What to do once a candidate destination has been looked at.
#[derive(Clone, Copy, Debug, PartialEq, Eq, Structural)]
pub enum Probe {
    /// Use the candidate with this number.
    Use(u32),
    /// Look at the candidate with this number next.
    Try(u32),
}

/// The step after looking at candidate `attempt`: use it when it is free,
/// else look at the next one; when all are taken, use the plain name.
pub open spec fn probe_step(attempt: u32, taken: bool) -> Probe {
    if !taken {
        Probe::Use(attempt)
    } else if attempt + 1 < max_attempts() {
        Probe::Try((attempt + 1) as u32)
    } else {
        Probe::Use(0)
    }
}

/// The choice of destination for a copy: the first free candidate; when all
/// 1000 are taken, the plain name (which the copy then overwrites).
pub fn after_probe(attempt: u32, taken: bool) -> (p: Probe)
    requires
        attempt < max_attempts(),
    ensures
        p == probe_step(attempt, taken),
{
    if !taken {
        Probe::Use(attempt)
    } else if attempt + 1 < 1000 {
        Probe::Try(attempt + 1)
    } else {
        Probe::Use(0)
    }
}

/// The candidate that probing settles on when started at `attempt`, with
/// `taken[i]` the answer for candidate `i`: `probe_step` followed until it
/// says `Use`.
pub open spec fn probe_run(taken: Seq<bool>, attempt: u32) -> u32
    decreases max_attempts() - attempt,
{
    if attempt < max_attempts() {
        match probe_step(attempt, taken[attempt as int]) {
            Probe::Use(k) => k,
            Probe::Try(next) => probe_run(taken, next),
        }
    } else {
        0
    }
}

/// Whether candidate `i` is the first free one.
pub open spec fn is_first_free(taken: Seq<bool>, i: int) -> bool {
    &&& 0 <= i < max_attempts()
    &&& !taken[i]
    &&& forall|j: int| 0 <= j < i ==> #[trigger] taken[j]
}

/// Probing from candidate 0 with `after_probe` settles on the first free
/// candidate, and on the plain name (candidate 0) when all are taken.
pub proof fn lemma_probing_finds_first_free(taken: Seq<bool>)
    requires
        taken.len() == max_attempts(),
    ensures
        forall|i: int| is_first_free(taken, i) ==> probe_run(taken, 0) == i,
        (forall|j: int| 0 <= j < max_attempts() ==> #[trigger] taken[j]) ==> probe_run(taken, 0) == 0,
{
    lemma_probe_run_from(taken, 0);
}

proof fn lemma_probe_run_from(taken: Seq<bool>, a: u32)
    requires
        taken.len() == max_attempts(),
        a < max_attempts(),
    ensures
        forall|i: int| a <= i < max_attempts() && !taken[i] && (forall|j: int| a <= j < i ==> #[trigger] taken[j])
            ==> probe_run(taken, a) == i,
        (forall|j: int| a <= j < max_attempts() ==> #[trigger] taken[j]) ==> probe_run(taken, a) == 0,
    decreases max_attempts() - a,
{
    if a + 1 < max_attempts() {
        lemma_probe_run_from(taken, (a + 1) as u32);
        assert forall|i: int| a <= i < max_attempts() && !taken[i] && (forall|j: int| a <= j < i ==> #[trigger] taken[j])
            implies probe_run(taken, a) == i by {
            if i > a {
                assert(taken[a as int]);
                assert forall|j: int| a + 1 <= j < i implies #[trigger] taken[j] by {}
            }
        }
    }
}

} // verus!
