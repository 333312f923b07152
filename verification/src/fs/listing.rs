//! Directory listings: which entries are shown and in what order, the home
//! directory and the places sidebar.
use vstd::prelude::*;
use crate::text::chars_of;
use super::entry::{DirEntry, FileKind, Timestamp};
use super::path::{join_path, path_join, path_parent};
use crate::icons::PlaceIcon;

verus! {

/// The column a listing is ordered by.
#[derive(Clone, Copy, Debug, PartialEq, Eq, Structural)]
pub enum SortKey {
    Name,
    Size,
    Modified,
}

/// `str::to_lowercase` of a text.
pub uninterp spec fn lowercase(s: Seq<char>) -> Seq<char>;

/// The Unicode lowercase form of `s` (`str::to_lowercase`).
#[verifier::external_body]
fn to_lowercase(s: &str) -> (r: String)
    ensures
        r@ == lowercase(s@),
{
    s.to_lowercase()
}

/// The order of `String`s: character by character, a proper prefix first.
pub open spec fn lex_lt(a: Seq<char>, b: Seq<char>) -> bool
    decreases a.len(),
{
    if a.len() == 0 {
        b.len() > 0
    } else if b.len() == 0 {
        false
    } else if a[0] < b[0] {
        true
    } else if a[0] > b[0] {
        false
    } else {
        lex_lt(a.drop_first(), b.drop_first())
    }
}

/// The order of optional times: no time first, then earlier before later.
pub open spec fn time_lt(a: Option<Timestamp>, b: Option<Timestamp>) -> bool {
    match (a, b) {
        (None, Some(_)) => true,
        (Some(x), Some(y)) => x.secs < y.secs || (x.secs == y.secs && x.nanos < y.nanos),
        _ => false,
    }
}

/// The size an entry is ordered by: its size, or zero when it has none.
pub open spec fn size_or_zero(e: DirEntry) -> u64 {
    match e.size {
        Some(n) => n,
        None => 0,
    }
}

/// Whether `a` comes before `b` by the chosen column alone: names compared
/// in lowercase, sizes as numbers, modification times oldest first.
pub open spec fn key_lt(a: DirEntry, b: DirEntry, sort: SortKey) -> bool {
    match sort {
        SortKey::Name => lex_lt(lowercase(a.name@), lowercase(b.name@)),
        SortKey::Size => size_or_zero(a) < size_or_zero(b),
        SortKey::Modified => time_lt(a.modified, b.modified),
    }
}

pub open spec fn is_directory(e: DirEntry) -> bool {
    e.kind == FileKind::Directory
}

/// Whether `a` is listed before `b`: directories before everything else,
/// then by the chosen column.
pub open spec fn entry_before(a: DirEntry, b: DirEntry, sort: SortKey) -> bool {
    if is_directory(a) != is_directory(b) {
        is_directory(a)
    } else {
        key_lt(a, b, sort)
    }
}

/// Whether `a` and `b` are level: neither is listed before the other.
pub open spec fn level(a: DirEntry, b: DirEntry, sort: SortKey) -> bool {
    !entry_before(a, b, sort) && !entry_before(b, a, sort)
}

/// Whether an entry is shown: hidden entries only when asked for.
pub open spec fn is_shown(e: DirEntry, show_hidden: bool) -> bool {
    show_hidden || !e.hidden
}

/// Whether `perm` is a permutation of `0..n`.
pub open spec fn is_permutation(perm: Seq<int>, n: int) -> bool {
    &&& perm.len() == n
    &&& forall|i: int| 0 <= i < n ==> 0 <= #[trigger] perm[i] < n
    &&& forall|i: int, j: int| 0 <= i < n && 0 <= j < n && i != j ==> perm[i] != perm[j]
}

/// Whether `out` lists `src` in order: a permutation of it, sorted by
/// `entry_before`, with level entries in the order they came in (a stable sort).
pub open spec fn is_sorted_listing(out: Seq<DirEntry>, src: Seq<DirEntry>, sort: SortKey) -> bool {
    exists|perm: Seq<int>|
        {
            &&& is_permutation(perm, src.len() as int)
            &&& out.len() == src.len()
            &&& forall|i: int| 0 <= i < out.len() ==> out[i] == src[#[trigger] perm[i]]
            &&& forall|i: int, j: int|
                0 <= i < j < out.len() ==> !entry_before(#[trigger] out[j], #[trigger] out[i], sort)
            &&& forall|i: int, j: int|
                0 <= i < j < out.len() && level(#[trigger] out[i], #[trigger] out[j], sort)
                    ==> perm[i] < perm[j]
        }
}

pub proof fn lemma_lex_irreflexive(a: Seq<char>)
    ensures
        !lex_lt(a, a),
    decreases a.len(),
{
    if a.len() > 0 {
        lemma_lex_irreflexive(a.drop_first());
    }
}

pub proof fn lemma_lex_trichotomy(a: Seq<char>, b: Seq<char>)
    ensures
        lex_lt(a, b) || a == b || lex_lt(b, a),
        !(lex_lt(a, b) && lex_lt(b, a)),
    decreases a.len(),
{
    if a.len() > 0 && b.len() > 0 && a[0] == b[0] {
        lemma_lex_trichotomy(a.drop_first(), b.drop_first());
        if a.drop_first() == b.drop_first() {
            assert forall|k: int| 0 <= k < a.len() implies a[k] == b[k] by {
                if k > 0 {
                    assert(a[k] == a.drop_first()[k - 1]);
                    assert(b[k] == b.drop_first()[k - 1]);
                }
            }
            assert(a =~= b);
        }
    } else if a.len() == 0 && b.len() == 0 {
        assert(a =~= b);
    }
}

pub proof fn lemma_lex_transitive(a: Seq<char>, b: Seq<char>, c: Seq<char>)
    requires
        lex_lt(a, b),
        lex_lt(b, c),
    ensures
        lex_lt(a, c),
    decreases a.len(),
{
    if a.len() > 0 && b.len() > 0 && c.len() > 0 && a[0] == b[0] && b[0] == c[0] {
        lemma_lex_transitive(a.drop_first(), b.drop_first(), c.drop_first());
    }
}

/// Listing order is asymmetric: of two entries at most one comes first.
pub proof fn lemma_before_asymmetric(a: DirEntry, b: DirEntry, sort: SortKey)
    ensures
        entry_before(a, b, sort) ==> !entry_before(b, a, sort),
{
    if sort == SortKey::Name {
        lemma_lex_trichotomy(lowercase(a.name@), lowercase(b.name@));
    }
}

/// If `a` comes before `c`, any `b` comes after `a` or before `c`.
pub proof fn lemma_before_negatively_transitive(a: DirEntry, b: DirEntry, c: DirEntry, sort: SortKey)
    requires
        entry_before(a, c, sort),
    ensures
        entry_before(a, b, sort) || entry_before(b, c, sort),
{
    if is_directory(a) == is_directory(b) && is_directory(b) == is_directory(c) && sort
        == SortKey::Name {
        let (x, y, z) = (lowercase(a.name@), lowercase(b.name@), lowercase(c.name@));
        lemma_lex_trichotomy(x, y);
        if lex_lt(y, x) {
            lemma_lex_transitive(y, x, z);
        }
    }
}

proof fn lemma_lex_skip(a: Seq<char>, b: Seq<char>, i: int)
    requires
        0 <= i <= a.len(),
        i <= b.len(),
        a.take(i) == b.take(i),
    ensures
        lex_lt(a, b) == lex_lt(a.skip(i), b.skip(i)),
    decreases i,
{
    if i > 0 {
        assert(a[0] == a.take(i)[0]);
        assert(b[0] == b.take(i)[0]);
        assert(a.drop_first().take(i - 1) =~= a.take(i).drop_first());
        assert(b.drop_first().take(i - 1) =~= b.take(i).drop_first());
        lemma_lex_skip(a.drop_first(), b.drop_first(), i - 1);
        assert(a.drop_first().skip(i - 1) =~= a.skip(i));
        assert(b.drop_first().skip(i - 1) =~= b.skip(i));
    } else {
        assert(a.skip(0) =~= a);
        assert(b.skip(0) =~= b);
    }
}

/// Whether `a` sorts before `b` as `String`s do.
pub fn lex_less(a: &[char], b: &[char]) -> (r: bool)
    ensures
        r == lex_lt(a@, b@),
{
    let mut i: usize = 0;
    while i < a.len() && i < b.len() && a[i] == b[i]
        invariant
            0 <= i <= a@.len(),
            i <= b@.len(),
            a@.take(i as int) == b@.take(i as int),
        decreases a@.len() - i,
    {
        assert(a@.take(i + 1) =~= a@.take(i as int).push(a@[i as int]));
        assert(b@.take(i + 1) =~= b@.take(i as int).push(b@[i as int]));
        i = i + 1;
    }
    proof {
        lemma_lex_skip(a@, b@, i as int);
        if i < a@.len() && i < b@.len() {
            assert(a@.skip(i as int)[0] == a@[i as int]);
            assert(b@.skip(i as int)[0] == b@[i as int]);
        }
    }
    if i == a.len() {
        i < b.len()
    } else if i == b.len() {
        false
    } else {
        a[i] < b[i]
    }
}

fn time_less(a: Option<Timestamp>, b: Option<Timestamp>) -> (r: bool)
    ensures
        r == time_lt(a, b),
{
    match (a, b) {
        (None, Some(_)) => true,
        (Some(x), Some(y)) => x.secs < y.secs || (x.secs == y.secs && x.nanos < y.nanos),
        _ => false,
    }
}

fn size_key(e: &DirEntry) -> (n: u64)
    ensures
        n == size_or_zero(*e),
{
    match e.size {
        Some(n) => n,
        None => 0,
    }
}

/// Whether `a` is listed before `b`; `ka` and `kb` are their lowercase
/// names when ordering by name.
fn before(a: &DirEntry, ka: &[char], b: &DirEntry, kb: &[char], sort: SortKey) -> (r: bool)
    requires
        sort == SortKey::Name ==> ka@ == lowercase(a.name@) && kb@ == lowercase(b.name@),
    ensures
        r == entry_before(*a, *b, sort),
{
    let da = a.kind == FileKind::Directory;
    let db = b.kind == FileKind::Directory;
    if da != db {
        return da;
    }
    match sort {
        SortKey::Name => lex_less(ka, kb),
        SortKey::Size => size_key(a) < size_key(b),
        SortKey::Modified => time_less(a.modified, b.modified),
    }
}

/// In a sorted run, once `x` comes before an entry it comes before every
/// later one.
proof fn lemma_sorted_monotone(s: Seq<DirEntry>, x: DirEntry, i: int, j: int, sort: SortKey)
    requires
        0 <= i < j < s.len(),
        forall|p: int, q: int| 0 <= p < q < s.len() ==> !entry_before(#[trigger] s[q], #[trigger] s[p], sort),
        entry_before(x, s[i], sort),
    ensures
        entry_before(x, s[j], sort),
{
    lemma_before_negatively_transitive(x, s[j], s[i], sort);
}

/// First position in the sorted `out` whose entry comes after `x`.
fn upper_bound(out: &Vec<DirEntry>, keys: &Vec<Vec<char>>, x: &DirEntry, kx: &[char], sort: SortKey) -> (pos: usize)
    requires
        keys@.len() == out@.len(),
        sort == SortKey::Name ==> kx@ == lowercase(x.name@),
        forall|k: int| 0 <= k < out@.len() && sort == SortKey::Name ==> (#[trigger] keys@[k])@ == lowercase(out@[k].name@),
        forall|p: int, q: int| 0 <= p < q < out@.len() ==> !entry_before(#[trigger] out@[q], #[trigger] out@[p], sort),
    ensures
        pos <= out@.len(),
        forall|k: int| 0 <= k < pos ==> !entry_before(*x, #[trigger] out@[k], sort),
        forall|k: int| pos <= k < out@.len() ==> entry_before(*x, #[trigger] out@[k], sort),
{
    let mut lo: usize = 0;
    let mut hi: usize = out.len();
    while lo < hi
        invariant
            lo <= hi <= out@.len(),
            keys@.len() == out@.len(),
            sort == SortKey::Name ==> kx@ == lowercase(x.name@),
            forall|k: int| 0 <= k < out@.len() && sort == SortKey::Name ==> (#[trigger] keys@[k])@ == lowercase(out@[k].name@),
            forall|p: int, q: int| 0 <= p < q < out@.len() ==> !entry_before(#[trigger] out@[q], #[trigger] out@[p], sort),
            forall|k: int| 0 <= k < lo ==> !entry_before(*x, #[trigger] out@[k], sort),
            forall|k: int| hi <= k < out@.len() ==> entry_before(*x, #[trigger] out@[k], sort),
        decreases hi - lo,
    {
        let mid = lo + (hi - lo) / 2;
        if before(x, kx, &out[mid], &keys[mid], sort) {
            proof {
                assert forall|k: int| mid <= k < out@.len() implies entry_before(*x, #[trigger] out@[k], sort) by {
                    if k > mid {
                        lemma_sorted_monotone(out@, *x, mid as int, k, sort);
                    }
                }
            }
            hi = mid;
        } else {
            proof {
                assert forall|k: int| 0 <= k < mid + 1 implies !entry_before(*x, #[trigger] out@[k], sort) by {
                    if k < mid && entry_before(*x, out@[k], sort) {
                        lemma_sorted_monotone(out@, *x, k, mid as int, sort);
                    }
                }
            }
            lo = mid + 1;
        }
    }
    lo
}

/// The entries ordered for display: directories first, then by the column,
/// level entries keeping their order (`sort_by` is stable).
pub fn sort_entries(entries: Vec<DirEntry>, sort: SortKey) -> (out: Vec<DirEntry>)
    ensures
        is_sorted_listing(out@, entries@, sort),
{
    let ghost src = entries@;
    let mut out: Vec<DirEntry> = Vec::new();
    let mut keys: Vec<Vec<char>> = Vec::new();
    let ghost mut perm: Seq<int> = Seq::empty();
    for e in it: entries
        invariant
            src == it.seq(),
            keys@.len() == out@.len(),
            out@.len() == it.index(),
            is_permutation(perm, it.index() as int),
            forall|k: int| 0 <= k < out@.len() ==> out@[k] == src[#[trigger] perm[k]],
            forall|k: int| 0 <= k < out@.len() && sort == SortKey::Name ==> (#[trigger] keys@[k])@ == lowercase(out@[k].name@),
            forall|p: int, q: int| 0 <= p < q < out@.len() ==> !entry_before(#[trigger] out@[q], #[trigger] out@[p], sort),
            forall|p: int, q: int| 0 <= p < q < out@.len() && level(#[trigger] out@[p], #[trigger] out@[q], sort) ==> perm[p] < perm[q],
    {
        let ghost m = it.index() as int;
        let key = if sort == SortKey::Name {
            chars_of(to_lowercase(e.name.as_str()).as_str())
        } else {
            Vec::new()
        };
        let pos = upper_bound(&out, &keys, &e, &key, sort);
        let ghost old_out = out@;
        let ghost old_perm = perm;
        out.insert(pos, e);
        keys.insert(pos, key);
        proof {
            perm = old_perm.insert(pos as int, m);
            assert(out@ == old_out.insert(pos as int, e));
            assert forall|k: int| 0 <= k < out@.len() implies out@[k] == src[#[trigger] perm[k]] by {
                if k < pos {
                } else if k == pos {
                } else {
                    assert(out@[k] == old_out[k - 1]);
                }
            }
            assert forall|p: int, q: int| 0 <= p < q < out@.len() implies !entry_before(#[trigger] out@[q], #[trigger] out@[p], sort) by {
                if q == pos {
                } else if p == pos {
                    lemma_before_asymmetric(e, out@[q], sort);
                } else {
                    let pp = if p < pos { p } else { p - 1 };
                    let qq = if q < pos { q } else { q - 1 };
                    assert(out@[p] == old_out[pp]);
                    assert(out@[q] == old_out[qq]);
                }
            }
            assert forall|p: int, q: int| 0 <= p < q < out@.len() && level(#[trigger] out@[p], #[trigger] out@[q], sort) implies perm[p] < perm[q] by {
                if q == pos {
                    assert(old_perm[p] < m);
                } else if p == pos {
                } else {
                    let pp = if p < pos { p } else { p - 1 };
                    let qq = if q < pos { q } else { q - 1 };
                    assert(out@[p] == old_out[pp]);
                    assert(out@[q] == old_out[qq]);
                }
            }
        }
    }
    proof {
        assert(is_permutation(perm, src.len() as int));
    }
    out
}

/// The entries of a directory as the browser lists them: hidden entries
/// left out unless `show_hidden`, then ordered by `sort_entries`.
pub fn list_dir(entries: Vec<DirEntry>, show_hidden: bool, sort: SortKey) -> (out: Vec<DirEntry>)
    ensures
        is_sorted_listing(
            out@,
            entries@.filter(|e: DirEntry| is_shown(e, show_hidden)),
            sort,
        ),
{
    let ghost pred = |e: DirEntry| is_shown(e, show_hidden);
    let ghost src = entries@;
    let mut kept: Vec<DirEntry> = Vec::new();
    for e in it: entries
        invariant
            src == it.seq(),
            pred == (|e: DirEntry| is_shown(e, show_hidden)),
            kept@ == src.take(it.index() as int).filter(pred),
    {
        let ghost i = it.index() as int;
        let ghost ee = e;
        if show_hidden || !e.hidden {
            kept.push(e);
        }
        proof {
            let t = src.take(i + 1);
            assert(t.drop_last() =~= src.take(i));
            assert(t.last() == ee);
            reveal_with_fuel(Seq::<DirEntry>::filter, 1);
            assert(t.filter(pred) == if pred(ee) {
                t.drop_last().filter(pred).push(ee)
            } else {
                t.drop_last().filter(pred)
            });
        }
    }
    proof {
        assert(src.take(src.len() as int) =~= src);
    }
    sort_entries(kept, sort)
}

/// A place in the sidebar.
#[derive(Clone, Debug)]
pub struct Place {
    pub label: String,
    pub path: String,
    pub icon: PlaceIcon,
}

/// The places offered when they exist, in order: home, downloads,
/// documents, desktop.
pub open spec fn place_candidate(home: Seq<char>, i: int) -> (Seq<char>, Seq<char>, PlaceIcon) {
    if i == 0 {
        ("Home"@, home, PlaceIcon::House)
    } else if i == 1 {
        ("Downloads"@, path_join(home, "Downloads"@), PlaceIcon::ArrowDown)
    } else if i == 2 {
        ("Documents"@, path_join(home, "Documents"@), PlaceIcon::FileText)
    } else {
        ("Desktop"@, path_join(home, "Desktop"@), PlaceIcon::Monitor)
    }
}

/// The place as plain values.
pub open spec fn place_view(p: Place) -> (Seq<char>, Seq<char>, PlaceIcon) {
    (p.label@, p.path@, p.icon)
}

/// The home places that exist, among the first `n` candidates, in order.
pub open spec fn home_places(home: Seq<char>, exists: Seq<bool>, n: int) -> Seq<(Seq<char>, Seq<char>, PlaceIcon)>
    decreases n,
{
    if n <= 0 {
        Seq::empty()
    } else if exists[n - 1] {
        home_places(home, exists, n - 1).push(place_candidate(home, n - 1))
    } else {
        home_places(home, exists, n - 1)
    }
}

/// The sidebar: those of the home places that exist, then the root.
pub open spec fn places_view(home: Seq<char>, exists: Seq<bool>) -> Seq<(Seq<char>, Seq<char>, PlaceIcon)> {
    home_places(home, exists, 4).push(("Root"@, "/"@, PlaceIcon::HardDrive))
}

/// The four home places, whether they exist or not, in sidebar order.
pub fn place_candidates(home: &str) -> (c: Vec<Place>)
    ensures
        c@.len() == 4,
        forall|i: int| 0 <= i < 4 ==> place_view(#[trigger] c@[i]) == place_candidate(home@, i),
{
    let mut c: Vec<Place> = Vec::new();
    c.push(Place { label: String::from_str("Home"), path: String::from_str(home), icon: PlaceIcon::House });
    c.push(Place { label: String::from_str("Downloads"), path: join_path(home, "Downloads"), icon: PlaceIcon::ArrowDown });
    c.push(Place { label: String::from_str("Documents"), path: join_path(home, "Documents"), icon: PlaceIcon::FileText });
    c.push(Place { label: String::from_str("Desktop"), path: join_path(home, "Desktop"), icon: PlaceIcon::Monitor });
    c
}

/// The places sidebar for the home directory `home`; `exists[i]` tells
/// whether the `i`-th of `place_candidates(home)` is a directory.
pub fn places(home: &str, exists: &[bool]) -> (p: Vec<Place>)
    requires
        exists@.len() == 4,
    ensures
        p@.map_values(|q: Place| place_view(q)) == places_view(home@, exists@),
{
    let mut candidates = place_candidates(home);
    let ghost cands = candidates@;
    // Take the candidates out back to front, then keep them in order.
    let mut taken: Vec<Place> = Vec::new();
    while candidates.len() > 0
        invariant
            cands.len() == 4,
            candidates@.len() + taken@.len() == 4,
            candidates@ == cands.take(candidates@.len() as int),
            forall|k: int| 0 <= k < taken@.len() ==> #[trigger] taken@[k] == cands[3 - k],
        decreases candidates@.len(),
    {
        let c = candidates.pop().unwrap();
        taken.push(c);
        assert(candidates@ =~= cands.take(candidates@.len() as int));
    }
    let mut items: Vec<Place> = Vec::new();
    let mut i: usize = 0;
    while i < 4
        invariant
            0 <= i <= 4,
            exists@.len() == 4,
            taken@.len() == 4 - i,
            forall|k: int| 0 <= k < taken@.len() ==> #[trigger] taken@[k] == cands[3 - k],
            forall|k: int| 0 <= k < 4 ==> place_view(#[trigger] cands[k]) == place_candidate(home@, k),
            items@.map_values(|q: Place| place_view(q)) == home_places(home@, exists@, i as int),
        decreases 4 - i,
    {
        let c = taken.pop().unwrap();
        let ghost before = items@;
        if exists[i] {
            items.push(c);
            assert(items@.map_values(|q: Place| place_view(q)) =~= before.map_values(|q: Place| place_view(q)).push(place_candidate(home@, i as int)));
        }
        i = i + 1;
    }
    let ghost before = items@;
    items.push(Place { label: String::from_str("Root"), path: String::from_str("/"), icon: PlaceIcon::HardDrive });
    assert(items@.map_values(|q: Place| place_view(q)) =~= before.map_values(|q: Place| place_view(q)).push(("Root"@, "/"@, PlaceIcon::HardDrive)));
    items
}

/// The user's home directory as the `directories` crate finds it
/// (`BaseDirs::new()` and `home_dir()`). Which directory it is depends on
/// the environment and the user database, so that is not stated; on Unix a
/// home directory is only found when `$HOME` or the user's password entry
/// names a non-empty one, so a found home is never empty.
#[verifier::external_body]
pub(crate) fn base_home_dir() -> (home: Option<String>)
    ensures
        home matches Some(h) ==> h@.len() > 0,
{
    directories::BaseDirs::new().map(|d| d.home_dir().to_string_lossy().into_owned())
}

/// `home`, or `fallback` when no home directory was found.
pub fn home_or(home: Option<String>, fallback: &str) -> (r: String)
    ensures
        r@ == match home {
            Some(h) => h@,
            None => fallback@,
        },
{
    match home {
        Some(h) => h,
        None => String::from_str(fallback),
    }
}

/// The user's home directory, or `/` when there is none: either way a
/// non-empty path.
pub fn home_dir() -> (r: String)
    ensures
        r@.len() > 0,
{
    proof {
        reveal_strlit("/");
    }
    home_or(base_home_dir(), "/")
}

/// The directory to start in for the path `arg`: the path itself when it is
/// a directory, else its parent when that is one, else none (and the caller
/// falls back). `arg_is_dir` and `parent_is_dir` are what the file system
/// says of the path and of `parent_of(arg)`.
pub fn start_dir(arg: &str, arg_is_dir: bool, parent_is_dir: bool) -> (d: Option<String>)
    ensures
        arg_is_dir ==> (d matches Some(p) && p@ == arg@),
        !arg_is_dir ==> match path_parent(arg@) {
            Some(p) => if parent_is_dir {
                d matches Some(q) && q@ == p
            } else {
                d is None
            },
            None => d is None,
        },
{
    if arg_is_dir {
        return Some(String::from_str(arg));
    }
    match super::path::parent_path(arg) {
        Some(p) => if parent_is_dir {
            Some(p)
        } else {
            None
        },
        None => None,
    }
}

/// A listing puts every directory before every other entry.
pub proof fn lemma_directories_first(out: Seq<DirEntry>, src: Seq<DirEntry>, sort: SortKey, i: int, j: int)
    requires
        is_sorted_listing(out, src, sort),
        0 <= i < j < out.len(),
        is_directory(out[j]),
    ensures
        is_directory(out[i]),
{
    let perm = listing_perm(out, src, sort);
    assert(!entry_before(out[j], out[i], sort));
}

/// A listing made without hidden entries shows none.
pub proof fn lemma_hidden_left_out(out: Seq<DirEntry>, entries: Seq<DirEntry>, sort: SortKey, i: int)
    requires
        is_sorted_listing(out, entries.filter(|e: DirEntry| is_shown(e, false)), sort),
        0 <= i < out.len(),
    ensures
        !out[i].hidden,
{
    let src = entries.filter(|e: DirEntry| is_shown(e, false));
    let perm = listing_perm(out, src, sort);
    assert(out[i] == src[perm[i]]);
    entries.lemma_filter_pred(|e: DirEntry| is_shown(e, false), perm[i]);
}

/// An increasing permutation is the identity.
proof fn lemma_increasing_permutation(perm: Seq<int>, n: int)
    requires
        is_permutation(perm, n),
        forall|i: int, j: int| 0 <= i < j < n ==> perm[i] < perm[j],
    ensures
        forall|i: int| 0 <= i < n ==> #[trigger] perm[i] == i,
{
    assert forall|i: int| 0 <= i < n implies #[trigger] perm[i] == i by {
        lemma_gap(perm, n, 0, i);
        lemma_gap(perm, n, i, n - 1);
        assert(0 <= perm[0]);
        assert(perm[n - 1] < n);
    }
}

/// `perm[j] - perm[i] >= j - i` for `i <= j`.
proof fn lemma_gap(perm: Seq<int>, n: int, i: int, j: int)
    requires
        is_permutation(perm, n),
        forall|i: int, j: int| 0 <= i < j < n ==> perm[i] < perm[j],
        0 <= i <= j < n,
    ensures
        perm[j] - perm[i] >= j - i,
    decreases j - i,
{
    if i < j {
        lemma_gap(perm, n, i, j - 1);
    }
}

/// Listing entries that are already in listing order leaves them as they
/// are: listing is idempotent.
pub proof fn lemma_listing_idempotent(out: Seq<DirEntry>, src: Seq<DirEntry>, sort: SortKey)
    requires
        is_sorted_listing(out, src, sort),
        forall|i: int, j: int| 0 <= i < j < src.len() ==> !entry_before(#[trigger] src[j], #[trigger] src[i], sort),
    ensures
        out == src,
{
    let perm = listing_perm(out, src, sort);
    let n = src.len() as int;
    assert forall|i: int, j: int| 0 <= i < j < n implies perm[i] < perm[j] by {
        assert(out[i] == src[perm[i]]);
        assert(out[j] == src[perm[j]]);
        if perm[i] > perm[j] {
            assert(!entry_before(src[perm[i]], src[perm[j]], sort));
            assert(!entry_before(out[j], out[i], sort));
            assert(level(out[i], out[j], sort));
        }
    }
    lemma_increasing_permutation(perm, n);
    assert forall|i: int| 0 <= i < n implies out[i] == src[i] by {
        assert(perm[i] == i);
    }
    assert(out =~= src);
}

/// Every value in `0..n` is taken by a permutation of `0..n`.
proof fn lemma_permutation_onto(perm: Seq<int>, n: int, k: int)
    requires
        is_permutation(perm, n),
        0 <= k < n,
    ensures
        exists|i: int| 0 <= i < n && perm[i] == k,
{
    let r = vstd::set_lib::set_int_range(0, n);
    vstd::set_lib::lemma_int_range(0, n);
    let f = |i: int| perm[i];
    let img = r.map(f);
    assert(vstd::relations::injective_on(f, r));
    vstd::set_lib::lemma_map_size(r, img, f);
    assert(img.subset_of(r)) by {
        assert forall|x: int| img.contains(x) implies r.contains(x) by {
            let i = choose|i: int| r.contains(i) && x == f(i);
        }
    }
    vstd::set_lib::lemma_subset_equality(img, r);
    assert(r.contains(k));
    assert(img.contains(k));
}

/// The permutation behind a listing.
spec fn listing_perm(out: Seq<DirEntry>, src: Seq<DirEntry>, sort: SortKey) -> Seq<int> {
    choose|perm: Seq<int>|
        {
            &&& is_permutation(perm, src.len() as int)
            &&& out.len() == src.len()
            &&& forall|i: int| 0 <= i < out.len() ==> out[i] == src[#[trigger] perm[i]]
            &&& forall|i: int, j: int|
                0 <= i < j < out.len() ==> !entry_before(#[trigger] out[j], #[trigger] out[i], sort)
            &&& forall|i: int, j: int|
                0 <= i < j < out.len() && level(#[trigger] out[i], #[trigger] out[j], sort)
                    ==> perm[i] < perm[j]
        }
}

/// A listing is determined by the entries and the column: any two sorted,
/// stable listings of the same entries are the same.
pub proof fn lemma_listing_unique(a: Seq<DirEntry>, b: Seq<DirEntry>, src: Seq<DirEntry>, sort: SortKey)
    requires
        is_sorted_listing(a, src, sort),
        is_sorted_listing(b, src, sort),
    ensures
        a == b,
{
    let p = listing_perm(a, src, sort);
    let q = listing_perm(b, src, sort);
    let n = src.len() as int;
    // Where each entry of `src` stands in `a`.
    let pinv = |k: int| choose|i: int| 0 <= i < n && p[i] == k;
    assert forall|k: int| 0 <= k < n implies 0 <= #[trigger] pinv(k) < n && p[pinv(k)] == k by {
        lemma_permutation_onto(p, n, k);
    }
    let r = Seq::new(n as nat, |i: int| pinv(q[i]));
    assert forall|i: int| 0 <= i < n implies 0 <= #[trigger] r[i] < n && b[i] == a[r[i]] by {
        assert(0 <= q[i] < n);
        assert(p[pinv(q[i])] == q[i]);
        assert(a[pinv(q[i])] == src[p[pinv(q[i])]]);
    }
    assert forall|i: int, j: int| 0 <= i < n && 0 <= j < n && i != j implies r[i] != r[j] by {
        assert(0 <= q[i] < n && 0 <= q[j] < n);
        assert(p[pinv(q[i])] == q[i]);
        assert(p[pinv(q[j])] == q[j]);
    }
    assert(is_permutation(r, n));
    assert forall|i: int, j: int| 0 <= i < j < n && level(#[trigger] b[i], #[trigger] b[j], sort) implies r[i] < r[j] by {
        assert(q[i] < q[j]);
        assert(0 <= q[i] < n && 0 <= q[j] < n);
        assert(p[pinv(q[i])] == q[i]);
        assert(p[pinv(q[j])] == q[j]);
        assert(b[i] == a[r[i]] && b[j] == a[r[j]]);
        if r[j] < r[i] {
            assert(level(a[r[j]], a[r[i]], sort));
            assert(p[r[j]] < p[r[i]]);
        }
    }
    assert(is_sorted_listing(b, a, sort));
    lemma_listing_idempotent(b, a, sort);
}

} // verus!
