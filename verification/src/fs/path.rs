//! Paths as text: joining (`PathBuf::push` on Unix), and the questions asked
//! of `std::path::Path` (parent, final component, stem, extension,
//! component-wise equality).
use vstd::prelude::*;
use crate::text::{chars_of, string_of};

verus! {

/// Whether `s` is non-empty and made of `/` only: a path that is just a root.
pub open spec fn is_root_only(s: Seq<char>) -> bool {
    s.len() > 0 && forall|i: int| 0 <= i < s.len() ==> s[i] == '/'
}

/// `base` joined with `rel` on Unix: an absolute `rel` replaces `base`;
/// otherwise a `/` separates them unless `base` is empty or already ends in one.
pub open spec fn path_join(base: Seq<char>, rel: Seq<char>) -> Seq<char> {
    if rel.len() > 0 && rel[0] == '/' {
        rel
    } else if base.len() == 0 || base.last() == '/' {
        base + rel
    } else {
        base + seq!['/'] + rel
    }
}

/// `Path::parent` of a path.
pub uninterp spec fn path_parent(p: Seq<char>) -> Option<Seq<char>>;

/// `Path::file_name` of a path.
pub uninterp spec fn path_file_name(p: Seq<char>) -> Option<Seq<char>>;

/// Index of the last `.` in `n`, or -1 when there is none.
pub open spec fn last_dot(n: Seq<char>) -> int
    decreases n.len(),
{
    if n.len() == 0 {
        -1
    } else if n.last() == '.' {
        n.len() - 1
    } else {
        last_dot(n.drop_last())
    }
}

/// The stem of a file name: the part before its last `.`, or the whole name
/// when it has no `.` or only a leading one.
pub open spec fn name_stem(n: Seq<char>) -> Seq<char> {
    if last_dot(n) <= 0 {
        n
    } else {
        n.take(last_dot(n))
    }
}

/// The extension of a file name: the part after its last `.`, none when it
/// has no `.` or only a leading one.
pub open spec fn name_extension(n: Seq<char>) -> Option<Seq<char>> {
    if last_dot(n) <= 0 {
        None
    } else {
        Some(n.skip(last_dot(n) + 1))
    }
}

/// `Path::file_stem`: the stem of the file name.
pub open spec fn path_file_stem(p: Seq<char>) -> Option<Seq<char>> {
    match path_file_name(p) {
        Some(n) => Some(name_stem(n)),
        None => None,
    }
}

/// `Path::extension`: the extension of the file name.
pub open spec fn path_extension(p: Seq<char>) -> Option<Seq<char>> {
    match path_file_name(p) {
        Some(n) => name_extension(n),
        None => None,
    }
}

proof fn lemma_last_dot(n: Seq<char>)
    ensures
        -1 <= last_dot(n) < n.len(),
        last_dot(n) >= 0 ==> n[last_dot(n)] == '.',
        forall|k: int| last_dot(n) < k < n.len() ==> n[k] != '.',
    decreases n.len(),
{
    if n.len() > 0 && n.last() != '.' {
        lemma_last_dot(n.drop_last());
        assert forall|k: int| last_dot(n) < k < n.len() implies n[k] != '.' by {
            if k < n.len() - 1 {
                assert(n[k] == n.drop_last()[k]);
            }
        }
    }
}

proof fn lemma_last_dot_unique(n: Seq<char>, i: int)
    requires
        -1 <= i < n.len(),
        i >= 0 ==> n[i] == '.',
        forall|k: int| i < k < n.len() ==> n[k] != '.',
    ensures
        last_dot(n) == i,
    decreases n.len(),
{
    if n.len() > 0 && i < n.len() - 1 {
        assert forall|k: int| i < k < n.len() - 1 implies n.drop_last()[k] != '.' by {
            assert(n.drop_last()[k] == n[k]);
        }
        lemma_last_dot_unique(n.drop_last(), i);
    }
}

/// Index of the last `.` in `v`, if any.
fn find_last_dot(v: &[char]) -> (r: Option<usize>)
    ensures
        match r {
            Some(i) => i == last_dot(v@) && i < v@.len(),
            None => last_dot(v@) == -1,
        },
{
    let mut j: usize = v.len();
    while j > 0 && v[j - 1] != '.'
        invariant
            0 <= j <= v@.len(),
            forall|k: int| j <= k < v@.len() ==> v@[k] != '.',
        decreases j,
    {
        j = j - 1;
    }
    proof {
        lemma_last_dot_unique(v@, j - 1);
    }
    if j == 0 {
        None
    } else {
        Some(j - 1)
    }
}

/// `==` on two `Path`s, which compares their components.
pub uninterp spec fn path_eq(a: Seq<char>, b: Seq<char>) -> bool;

/// `base` joined with `rel` (`Path::join`).
pub fn join_path(base: &str, rel: &str) -> (r: String)
    ensures
        r@ == path_join(base@, rel@),
{
    let b = chars_of(base);
    let mut out = chars_of(rel);
    if out.len() > 0 && out[0] == '/' {
        return string_of(&out);
    }
    let mut v = b;
    if v.len() > 0 && v[v.len() - 1] != '/' {
        v.push('/');
    }
    let ghost head = v@;
    v.append(&mut out);
    proof {
        if base@.len() == 0 || base@.last() == '/' {
            assert(v@ =~= base@ + rel@);
        } else {
            assert(head =~= base@ + seq!['/']);
            assert(v@ =~= base@ + seq!['/'] + rel@);
        }
    }
    string_of(&v)
}

/// `Path::parent`: the path without its final component. `None` for the
/// empty path and for a path that ends in a root; a parent is a proper
/// prefix of the path.
#[verifier::external_body]
pub(crate) fn parent_path(p: &str) -> (r: Option<String>)
    ensures
        r is Some <==> path_parent(p@) is Some,
        r matches Some(q) ==> path_parent(p@) == Some(q@),
        (p@.len() == 0 || is_root_only(p@)) ==> r is None,
        r matches Some(q) ==> q@.len() < p@.len() && q@ == p@.take(q@.len() as int),
{
    std::path::Path::new(p).parent().map(|q| q.to_string_lossy().into_owned())
}

/// `Path::file_name`: the final component, `None` when the path ends in a
/// root or in `..`. A final component is not empty and holds no `/`.
#[verifier::external_body]
pub(crate) fn file_name_of(p: &str) -> (r: Option<String>)
    ensures
        r is Some <==> path_file_name(p@) is Some,
        r matches Some(n) ==> path_file_name(p@) == Some(n@),
        r matches Some(n) ==> n@.len() > 0 && !crate::text::has_char(n@, '/'),
{
    std::path::Path::new(p).file_name().map(|n| n.to_string_lossy().into_owned())
}

/// `Path::file_stem`: the file name without its extension.
pub fn file_stem_of(p: &str) -> (r: Option<String>)
    ensures
        match (r, path_file_stem(p@)) {
            (Some(a), Some(b)) => a@ == b,
            (None, None) => true,
            _ => false,
        },
{
    match file_name_of(p) {
        None => None,
        Some(n) => {
            let v = chars_of(n.as_str());
            match find_last_dot(&v) {
                Some(i) if i > 0 => Some(string_of(&crate::text::sub_chars(&v, 0, i))),
                _ => Some(n),
            }
        },
    }
}

/// `Path::extension`: what follows the last `.` of the file name, when that
/// `.` is not its first character.
pub fn extension_of(p: &str) -> (r: Option<String>)
    ensures
        match (r, path_extension(p@)) {
            (Some(a), Some(b)) => a@ == b,
            (None, None) => true,
            _ => false,
        },
{
    match file_name_of(p) {
        None => None,
        Some(n) => {
            let v = chars_of(n.as_str());
            let len = v.len();
            match find_last_dot(&v) {
                Some(i) if i > 0 => {
                    let e = crate::text::sub_chars(&v, i + 1, len);
                    assert(v@.subrange(i + 1, v@.len() as int) =~= v@.skip(i + 1));
                    Some(string_of(&e))
                },
                _ => None,
            }
        },
    }
}

/// `==` on `Path`s: equal component by component. Equal text is an equal path.
#[verifier::external_body]
pub(crate) fn same_path(a: &str, b: &str) -> (r: bool)
    ensures
        r == path_eq(a@, b@),
        a@ == b@ ==> r,
{
    std::path::Path::new(a) == std::path::Path::new(b)
}

} // verus!
