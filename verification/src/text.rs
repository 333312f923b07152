//! Character-level text utilities shared by the theme parser, the file
//! operations and the listing: Unicode whitespace, trimming, splitting and
//! conversions between `String` and character vectors.
use vstd::prelude::*;

verus! {

/// Unicode `White_Space` code points, the set that `char::is_whitespace` uses.
pub open spec fn is_ws(c: char) -> bool {
    let u = c as u32;
    ||| 0x09 <= u <= 0x0d
    ||| u == 0x20
    ||| u == 0x85
    ||| u == 0xa0
    ||| u == 0x1680
    ||| 0x2000 <= u <= 0x200a
    ||| u == 0x2028
    ||| u == 0x2029
    ||| u == 0x202f
    ||| u == 0x205f
    ||| u == 0x3000
}

/// `s` without its leading whitespace.
pub open spec fn trim_start(s: Seq<char>) -> Seq<char>
    decreases s.len(),
{
    if s.len() > 0 && is_ws(s[0]) {
        trim_start(s.drop_first())
    } else {
        s
    }
}

/// `s` without its trailing whitespace.
pub open spec fn trim_end(s: Seq<char>) -> Seq<char>
    decreases s.len(),
{
    if s.len() > 0 && is_ws(s.last()) {
        trim_end(s.drop_last())
    } else {
        s
    }
}

/// `s` without leading and trailing whitespace, as `str::trim` gives it.
pub open spec fn trim(s: Seq<char>) -> Seq<char> {
    trim_end(trim_start(s))
}

/// Whether `c` occurs in `s`.
pub open spec fn has_char(s: Seq<char>, c: char) -> bool {
    exists|i: int| 0 <= i < s.len() && s[i] == c
}

/// Whether `s` begins with `c`.
pub open spec fn starts_with_char(s: Seq<char>, c: char) -> bool {
    s.len() > 0 && s[0] == c
}

/// Index of the first `c` in `s`, or the length of `s` when there is none.
pub open spec fn first_index_of(s: Seq<char>, c: char) -> int
    decreases s.len(),
{
    if s.len() == 0 {
        0
    } else if s[0] == c {
        0
    } else {
        1 + first_index_of(s.drop_first(), c)
    }
}

/// The pieces of `s` between occurrences of `sep`, as `str::split` gives them.
pub open spec fn split_on(s: Seq<char>, sep: char) -> Seq<Seq<char>>
    decreases s.len(),
{
    let i = first_index_of(s, sep);
    if i >= s.len() {
        seq![s]
    } else {
        proof {
            lemma_first_index_of(s, sep);
        }
        seq![s.take(i)] + split_on(s.skip(i + 1), sep)
    }
}

pub proof fn lemma_first_index_of(s: Seq<char>, c: char)
    ensures
        0 <= first_index_of(s, c) <= s.len(),
        forall|k: int| 0 <= k < first_index_of(s, c) ==> s[k] != c,
        first_index_of(s, c) < s.len() ==> s[first_index_of(s, c)] == c,
    decreases s.len(),
{
    if s.len() > 0 && s[0] != c {
        lemma_first_index_of(s.drop_first(), c);
        assert forall|k: int| 0 <= k < first_index_of(s, c) implies s[k] != c by {
            if k > 0 {
                assert(s[k] == s.drop_first()[k - 1]);
            }
        }
    }
}

pub proof fn lemma_first_index_unique(s: Seq<char>, c: char, i: int)
    requires
        0 <= i <= s.len(),
        forall|k: int| 0 <= k < i ==> s[k] != c,
        i < s.len() ==> s[i] == c,
    ensures
        first_index_of(s, c) == i,
    decreases s.len(),
{
    if s.len() > 0 && s[0] != c {
        assert forall|k: int| 0 <= k < i - 1 implies s.drop_first()[k] != c by {
            assert(s.drop_first()[k] == s[k + 1]);
        }
        lemma_first_index_unique(s.drop_first(), c, i - 1);
    }
}

pub proof fn lemma_trim_start_at(s: Seq<char>, i: int)
    requires
        0 <= i <= s.len(),
        forall|k: int| 0 <= k < i ==> is_ws(s[k]),
        i < s.len() ==> !is_ws(s[i]),
    ensures
        trim_start(s) == s.subrange(i, s.len() as int),
    decreases i,
{
    if i > 0 {
        assert forall|k: int| 0 <= k < i - 1 implies is_ws(s.drop_first()[k]) by {
            assert(s.drop_first()[k] == s[k + 1]);
        }
        lemma_trim_start_at(s.drop_first(), i - 1);
        assert(s.drop_first().subrange(i - 1, s.len() - 1) =~= s.subrange(i, s.len() as int));
    } else {
        assert(s.subrange(0, s.len() as int) =~= s);
    }
}

pub proof fn lemma_trim_end_at(s: Seq<char>, j: int)
    requires
        0 <= j <= s.len(),
        forall|k: int| j <= k < s.len() ==> is_ws(s[k]),
        j > 0 ==> !is_ws(s[j - 1]),
    ensures
        trim_end(s) == s.subrange(0, j),
    decreases s.len() - j,
{
    if j < s.len() {
        assert forall|k: int| j <= k < s.len() - 1 implies is_ws(s.drop_last()[k]) by {
            assert(s.drop_last()[k] == s[k]);
        }
        lemma_trim_end_at(s.drop_last(), j);
        assert(s.drop_last().subrange(0, j) =~= s.subrange(0, j));
    } else {
        assert(s.subrange(0, j) =~= s);
    }
}

/// Where `trim_start` cuts: the leading whitespace of `s` ends at
/// `s.len() - trim_start(s).len()`.
pub proof fn lemma_trim_start_cut(s: Seq<char>)
    ensures
        trim_start(s).len() <= s.len(),
        trim_start(s) == s.skip(s.len() - trim_start(s).len()),
        forall|k: int| 0 <= k < s.len() - trim_start(s).len() ==> is_ws(#[trigger] s[k]),
        trim_start(s).len() > 0 ==> !is_ws(s[s.len() - trim_start(s).len()]),
    decreases s.len(),
{
    if s.len() > 0 && is_ws(s[0]) {
        lemma_trim_start_cut(s.drop_first());
        assert forall|k: int| 0 <= k < s.len() - trim_start(s).len() implies is_ws(#[trigger] s[k]) by {
            if k > 0 {
                assert(s[k] == s.drop_first()[k - 1]);
            }
        }
        assert(s.drop_first().skip(s.len() - 1 - trim_start(s).len()) =~= s.skip(
            s.len() - trim_start(s).len(),
        ));
        if trim_start(s).len() > 0 {
            assert(s[s.len() - trim_start(s).len()] == s.drop_first()[s.len() - 1 - trim_start(s).len()]);
        }
    } else {
        assert(s.skip(0) =~= s);
    }
}

/// Where `trim_end` cuts: the trailing whitespace of `s` starts at
/// `trim_end(s).len()`.
pub proof fn lemma_trim_end_cut(s: Seq<char>)
    ensures
        trim_end(s).len() <= s.len(),
        trim_end(s) == s.take(trim_end(s).len() as int),
        forall|k: int| trim_end(s).len() <= k < s.len() ==> is_ws(#[trigger] s[k]),
        trim_end(s).len() > 0 ==> !is_ws(s[trim_end(s).len() - 1]),
    decreases s.len(),
{
    if s.len() > 0 && is_ws(s.last()) {
        lemma_trim_end_cut(s.drop_last());
        assert forall|k: int| trim_end(s).len() <= k < s.len() implies is_ws(#[trigger] s[k]) by {
            if k < s.len() - 1 {
                assert(s[k] == s.drop_last()[k]);
            }
        }
        assert(s.drop_last().take(trim_end(s).len() as int) =~= s.take(trim_end(s).len() as int));
        if trim_end(s).len() > 0 {
            assert(s[trim_end(s).len() - 1] == s.drop_last()[trim_end(s).len() - 1]);
        }
    } else {
        assert(s.take(s.len() as int) =~= s);
    }
}

/// Trimming a text with its trailing whitespace already cut gives what
/// trimming the whole text gives.
pub proof fn lemma_trim_of_trim_end(v: Seq<char>)
    ensures
        trim(trim_end(v)) == trim(v),
{
    lemma_trim_start_cut(v);
    lemma_trim_end_cut(v);
    let i = v.len() - trim_start(v).len();
    let j = trim_end(v).len() as int;
    if i == v.len() {
        if j > 0 {
            assert(is_ws(v[j - 1]));
        }
        assert(trim_end(v).len() == 0);
        lemma_trim_start_cut(trim_end(v));
        lemma_trim_end_cut(trim_start(trim_end(v)));
        lemma_trim_end_cut(trim_start(v));
    } else {
        assert(!is_ws(v[i]));
        assert(i < j);
        let head = v.take(j);
        lemma_trim_start_at(head, i);
        assert(head.subrange(i, head.len() as int) =~= v.subrange(i, j));
        let mid = v.subrange(i, j);
        lemma_trim_end_at(mid, j - i);
        assert(mid.subrange(0, j - i) =~= mid);
        let tail = v.skip(i);
        assert forall|k: int| j - i <= k < tail.len() implies is_ws(tail[k]) by {
            assert(tail[k] == v[k + i]);
        }
        assert(tail[j - i - 1] == v[j - 1]);
        lemma_trim_end_at(tail, j - i);
        assert(tail.subrange(0, j - i) =~= mid);
    }
}

/// Cutting the trailing whitespace of `a + b`, where `a` ends in a
/// character that is not whitespace, cuts only that of `b`.
pub proof fn lemma_trim_end_after(a: Seq<char>, b: Seq<char>)
    requires
        a.len() > 0,
        !is_ws(a.last()),
    ensures
        trim_end(a + b) == a + trim_end(b),
    decreases b.len(),
{
    if b.len() == 0 {
        assert(a + b =~= a);
        assert(a + trim_end(b) =~= a);
    } else if is_ws(b.last()) {
        assert((a + b).drop_last() =~= a + b.drop_last());
        lemma_trim_end_after(a, b.drop_last());
    } else {
        assert((a + b).last() == b.last());
    }
}

/// Splitting a text that ends in `sep` and a last piece without `sep`
/// gives the pieces before, then that last piece.
pub proof fn lemma_split_on_last(p: Seq<char>, sep: char, l: Seq<char>)
    requires
        !has_char(l, sep),
    ensures
        split_on(p + seq![sep] + l, sep) == split_on(p, sep).push(l),
    decreases p.len(),
{
    let s = p + seq![sep] + l;
    lemma_first_index_of(p, sep);
    let i = first_index_of(p, sep);
    if i < p.len() {
        assert forall|k: int| 0 <= k < i implies s[k] != sep by {
            assert(s[k] == p[k]);
        }
        assert(s[i] == p[i]);
        lemma_first_index_unique(s, sep, i);
        assert(s.take(i) =~= p.take(i));
        assert(s.skip(i + 1) =~= p.skip(i + 1) + seq![sep] + l);
        lemma_split_on_last(p.skip(i + 1), sep, l);
        assert(split_on(s, sep) == seq![p.take(i)] + split_on(p.skip(i + 1), sep).push(l));
        assert(split_on(p, sep) == seq![p.take(i)] + split_on(p.skip(i + 1), sep));
        assert(split_on(s, sep) =~= split_on(p, sep).push(l));
    } else {
        assert forall|k: int| 0 <= k < p.len() implies s[k] != sep by {
            assert(s[k] == p[k]);
        }
        assert(s[p.len() as int] == sep);
        lemma_first_index_unique(s, sep, p.len() as int);
        assert(s.take(p.len() as int) =~= p);
        assert(s.skip(p.len() as int + 1) =~= l);
        assert forall|k: int| 0 <= k < l.len() implies l[k] != sep by {
            if l[k] == sep {
                assert(has_char(l, sep));
            }
        }
        lemma_first_index_unique(l, sep, l.len() as int);
        assert(split_on(l, sep) == seq![l]);
        assert(split_on(p, sep) == seq![p]);
        assert(split_on(s, sep) =~= split_on(p, sep).push(l));
    }
}

/// Whether `c` is Unicode whitespace.
pub fn is_whitespace(c: char) -> (r: bool)
    ensures
        r == is_ws(c),
{
    let u = c as u32;
    (0x09 <= u && u <= 0x0d) || u == 0x20 || u == 0x85 || u == 0xa0 || u == 0x1680 || (0x2000 <= u
        && u <= 0x200a) || u == 0x2028 || u == 0x2029 || u == 0x202f || u == 0x205f || u == 0x3000
}

/// The characters of `s`, in order.
pub fn chars_of(s: &str) -> (r: Vec<char>)
    ensures
        r@ == s@,
{
    broadcast use vstd::string::group_string_axioms;

    let mut out: Vec<char> = Vec::new();
    for c in it: s.chars()
        invariant
            out@ == it.seq().take(it.index() as int),
    {
        out.push(c);
    }
    out
}

/// Appends `c` to `s` (`String::push`).
#[verifier::external_body]
fn push_char(s: &mut String, c: char)
    ensures
        final(s)@ == old(s)@.push(c),
{
    s.push(c);
}

/// A `String` holding exactly the characters of `v`.
pub fn string_of(v: &[char]) -> (r: String)
    ensures
        r@ == v@,
{
    let mut s = String::new();
    let mut i: usize = 0;
    while i < v.len()
        invariant
            0 <= i <= v@.len(),
            s@ == v@.take(i as int),
        decreases v@.len() - i,
    {
        push_char(&mut s, v[i]);
        assert(v@.take(i as int).push(v@[i as int]) =~= v@.take(i + 1));
        i = i + 1;
    }
    assert(v@.take(v@.len() as int) =~= v@);
    s
}

/// The characters of `v` from `lo` up to `hi`.
pub fn sub_chars(v: &[char], lo: usize, hi: usize) -> (r: Vec<char>)
    requires
        lo <= hi <= v@.len(),
    ensures
        r@ == v@.subrange(lo as int, hi as int),
{
    let mut out: Vec<char> = Vec::new();
    let mut i = lo;
    while i < hi
        invariant
            lo <= i <= hi <= v@.len(),
            out@ == v@.subrange(lo as int, i as int),
        decreases hi - i,
    {
        out.push(v[i]);
        assert(v@.subrange(lo as int, i as int).push(v@[i as int]) =~= v@.subrange(
            lo as int,
            i + 1,
        ));
        i = i + 1;
    }
    out
}

/// `v` without leading and trailing whitespace (`str::trim`).
pub fn trim_chars(v: &[char]) -> (r: Vec<char>)
    ensures
        r@ == trim(v@),
{
    let n = v.len();
    let mut i: usize = 0;
    while i < n && is_whitespace(v[i])
        invariant
            0 <= i <= n == v@.len(),
            forall|k: int| 0 <= k < i ==> is_ws(v@[k]),
        decreases n - i,
    {
        i = i + 1;
    }
    proof {
        lemma_trim_start_at(v@, i as int);
    }
    let ghost t = v@.subrange(i as int, n as int);
    let mut j: usize = n;
    while j > i && is_whitespace(v[j - 1])
        invariant
            i <= j <= n == v@.len(),
            t == v@.subrange(i as int, n as int),
            forall|k: int| j <= k < n ==> is_ws(v@[k]),
        decreases j,
    {
        j = j - 1;
    }
    proof {
        assert forall|k: int| j - i <= k < t.len() implies is_ws(t[k]) by {
            assert(t[k] == v@[k + i]);
        }
        if j > i {
            assert(t[j - i - 1] == v@[j - 1]);
        }
        lemma_trim_end_at(t, j - i);
        assert(t.subrange(0, j - i) =~= v@.subrange(i as int, j as int));
    }
    sub_chars(v, i, j)
}

/// Index of the first `c` in `v`, or `v.len()` when `c` does not occur.
pub fn find_char(v: &[char], c: char) -> (r: usize)
    ensures
        r == first_index_of(v@, c),
{
    let mut i: usize = 0;
    while i < v.len() && v[i] != c
        invariant
            0 <= i <= v@.len(),
            forall|k: int| 0 <= k < i ==> v@[k] != c,
        decreases v@.len() - i,
    {
        i = i + 1;
    }
    proof {
        lemma_first_index_unique(v@, c, i as int);
    }
    i
}

/// Whether `v` holds exactly the characters of `lit`.
pub fn chars_eq_str(v: &[char], lit: &str) -> (r: bool)
    ensures
        r == (v@ == lit@),
{
    let w = chars_of(lit);
    chars_eq(v, &w)
}

/// Whether `a` and `b` hold the same characters.
pub fn chars_eq(a: &[char], b: &[char]) -> (r: bool)
    ensures
        r == (a@ == b@),
{
    if a.len() != b.len() {
        return false;
    }
    let mut i: usize = 0;
    while i < a.len()
        invariant
            0 <= i <= a@.len() == b@.len(),
            forall|k: int| 0 <= k < i ==> a@[k] == b@[k],
        decreases a@.len() - i,
    {
        if a[i] != b[i] {
            return false;
        }
        i = i + 1;
    }
    assert(a@ =~= b@);
    true
}

/// Whether `c` occurs in `v`.
pub fn contains_char(v: &[char], c: char) -> (r: bool)
    ensures
        r == has_char(v@, c),
{
    let i = find_char(v, c);
    proof {
        lemma_first_index_of(v@, c);
    }
    i < v.len()
}

/// Index of the first `c` in `v` at or after `from`, or `v.len()`.
pub fn find_char_from(v: &[char], c: char, from: usize) -> (r: usize)
    requires
        from <= v@.len(),
    ensures
        r == from + first_index_of(v@.skip(from as int), c),
        from <= r <= v@.len(),
{
    let mut i: usize = from;
    while i < v.len() && v[i] != c
        invariant
            from <= i <= v@.len(),
            forall|k: int| from <= k < i ==> v@[k] != c,
        decreases v@.len() - i,
    {
        i = i + 1;
    }
    proof {
        let s = v@.skip(from as int);
        assert forall|k: int| 0 <= k < i - from implies s[k] != c by {
            assert(s[k] == v@[k + from]);
        }
        if i < v@.len() {
            assert(s[i - from] == v@[i as int]);
        }
        lemma_first_index_unique(s, c, i - from);
    }
    i
}

/// Whether `s` begins with `prefix`.
pub open spec fn seq_starts_with(s: Seq<char>, prefix: Seq<char>) -> bool {
    prefix.len() <= s.len() && s.take(prefix.len() as int) == prefix
}

/// Whether `s` ends with `suffix`.
pub open spec fn seq_ends_with(s: Seq<char>, suffix: Seq<char>) -> bool {
    suffix.len() <= s.len() && s.skip(s.len() - suffix.len()) == suffix
}

/// Whether `v` begins with `prefix`.
pub fn starts_with_chars(v: &[char], prefix: &[char]) -> (r: bool)
    ensures
        r == seq_starts_with(v@, prefix@),
{
    if prefix.len() > v.len() {
        return false;
    }
    let head = sub_chars(v, 0, prefix.len());
    assert(v@.subrange(0, prefix@.len() as int) =~= v@.take(prefix@.len() as int));
    chars_eq(&head, prefix)
}

/// Whether `v` ends with `suffix`.
pub fn ends_with_chars(v: &[char], suffix: &[char]) -> (r: bool)
    ensures
        r == seq_ends_with(v@, suffix@),
{
    if suffix.len() > v.len() {
        return false;
    }
    let tail = sub_chars(v, v.len() - suffix.len(), v.len());
    assert(v@.subrange(v@.len() - suffix@.len(), v@.len() as int) =~= v@.skip(
        v@.len() - suffix@.len(),
    ));
    chars_eq(&tail, suffix)
}

/// Whether `pat` occurs in `s` as a contiguous run.
pub open spec fn seq_contains(s: Seq<char>, pat: Seq<char>) -> bool {
    exists|i: int| 0 <= i && i + pat.len() <= s.len() && #[trigger] s.subrange(i, i + pat.len()) == pat
}

/// Whether `pat` occurs in `v` (`str::contains`).
pub fn contains_chars(v: &[char], pat: &[char]) -> (r: bool)
    ensures
        r == seq_contains(v@, pat@),
{
    let n = v.len();
    let m = pat.len();
    if m > n {
        return false;
    }
    if m == 0 {
        assert(v@.subrange(0int, 0int + pat@.len()) =~= pat@);
        return true;
    }
    let end = n - m + 1;
    let mut i: usize = 0;
    while i < end
        invariant
            n == v@.len(),
            m == pat@.len(),
            1 <= m <= n,
            end == n - m + 1,
            0 <= i <= end,
            forall|k: int| 0 <= k < i ==> #[trigger] v@.subrange(k, k + pat@.len()) != pat@,
        decreases end - i,
    {
        let w = sub_chars(v, i, i + m);
        if chars_eq(&w, pat) {
            return true;
        }
        i = i + 1;
    }
    false
}

} // verus!
