//! One directory entry as the browser shows it: name, kind, size label and
//! modification time.
use vstd::prelude::*;
use vstd::arithmetic::power2::pow2;
use crate::text::{chars_of, string_of};
use super::path::{file_name_of, is_root_only, parent_path, path_file_name, path_parent};

verus! {

/// What a directory entry is.
#[derive(Clone, Copy, Debug, PartialEq, Eq, Structural)]
pub enum FileKind {
    Directory,
    File,
    Symlink,
    Other,
}

/// A point in time as seconds and nanoseconds since the Unix epoch; times
/// before the epoch have negative seconds and, as always, `nanos < 10^9`.
#[derive(Clone, Copy, Debug, PartialEq, Eq, Structural)]
pub struct Timestamp {
    pub secs: i64,
    pub nanos: u32,
}

/// What the file system reports of an entry (`std::fs::Metadata`).
#[derive(Clone, Copy, Debug, PartialEq, Eq, Structural)]
pub struct FileMeta {
    pub is_symlink: bool,
    pub is_dir: bool,
    pub is_file: bool,
    pub len: u64,
    pub modified: Option<Timestamp>,
}

/// A directory entry.
#[derive(Clone, Debug)]
pub struct DirEntry {
    pub path: String,
    pub name: String,
    pub kind: FileKind,
    pub size: Option<u64>,
    pub modified: Option<Timestamp>,
    pub hidden: bool,
}

/// The kind that metadata reports; a symbolic link is a link whatever it
/// points at.
pub open spec fn kind_of(meta: FileMeta) -> FileKind {
    if meta.is_symlink {
        FileKind::Symlink
    } else if meta.is_dir {
        FileKind::Directory
    } else if meta.is_file {
        FileKind::File
    } else {
        FileKind::Other
    }
}

/// The name shown for a path: its final component, or the whole path when
/// it has none.
pub open spec fn display_name(path: Seq<char>) -> Seq<char> {
    match path_file_name(path) {
        Some(n) => n,
        None => path,
    }
}

/// Whether the entry is hidden: a name starting with `.` is.
pub open spec fn is_hidden_name(name: Seq<char>) -> bool {
    name.len() > 0 && name[0] == '.'
}

/// The first second of the calendar's range, 1 January 262144 BCE.
pub const MIN_LABEL_SECS: i64 = -8_334_601_228_800;

/// The last second of the calendar's range, 31 December 262142 CE.
pub const MAX_LABEL_SECS: i64 = 8_210_266_876_799;

/// Whether a timestamp lies in the calendar's range, from 1 January
/// 262144 BCE to the end of 262142 CE, with fewer than 10^9 nanoseconds:
/// exactly the times that have a date to show.
pub open spec fn timestamp_in_range(t: Timestamp) -> bool {
    MIN_LABEL_SECS <= t.secs <= MAX_LABEL_SECS && t.nanos < 1_000_000_000
}

/// Whether `c` is an ASCII digit.
pub open spec fn is_ascii_digit(c: char) -> bool {
    '0' <= c && c <= '9'
}

/// Whether `y` is how `%Y` writes a year: at least four digits, after a
/// `+` or `-` for a year outside 0 to 9999.
pub open spec fn is_year_text(y: Seq<char>) -> bool {
    let d = if y.len() > 0 && (y[0] == '+' || y[0] == '-') {
        y.drop_first()
    } else {
        y
    };
    d.len() >= 4 && forall|i: int| 0 <= i < d.len() ==> is_ascii_digit(#[trigger] d[i])
}

/// Whether `s` has the shape of a `%Y-%m-%d %H:%M` label: a year, then
/// `-MM-DD HH:MM` with two digits each.
pub open spec fn is_minute_label(s: Seq<char>) -> bool {
    let n = s.len() as int;
    &&& n >= 16
    &&& is_year_text(s.take(n - 12))
    &&& s[n - 12] == '-' && is_ascii_digit(s[n - 11]) && is_ascii_digit(s[n - 10])
    &&& s[n - 9] == '-' && is_ascii_digit(s[n - 8]) && is_ascii_digit(s[n - 7])
    &&& s[n - 6] == ' ' && is_ascii_digit(s[n - 5]) && is_ascii_digit(s[n - 4])
    &&& s[n - 3] == ':' && is_ascii_digit(s[n - 2]) && is_ascii_digit(s[n - 1])
}

/// `1024^k`.
pub open spec fn pow1024(k: nat) -> nat
    decreases k,
{
    if k == 0 {
        1
    } else {
        1024 * pow1024((k - 1) as nat)
    }
}

/// The unit a size is shown in: the number of times 1024 fits into it,
/// up to terabytes.
pub open spec fn size_unit(bytes: nat) -> nat {
    if bytes < 1024 {
        0
    } else if bytes < 1024 * 1024 {
        1
    } else if bytes < 1024 * 1024 * 1024 {
        2
    } else if bytes < 1024 * 1024 * 1024 * 1024 {
        3
    } else {
        4
    }
}

/// The letter of a unit.
pub open spec fn unit_letter(unit: nat) -> char {
    if unit == 0 {
        'B'
    } else if unit == 1 {
        'K'
    } else if unit == 2 {
        'M'
    } else if unit == 3 {
        'G'
    } else {
        'T'
    }
}

/// `n / d` rounded to the nearest integer, halves to the even one.
pub open spec fn round_half_even(n: nat, d: nat) -> nat
    recommends
        d > 0,
{
    let q = n / d;
    let r = n % d;
    if 2 * r > d || (2 * r == d && q % 2 == 1) {
        q + 1
    } else {
        q
    }
}

/// The least shift `s` (from `from` on, at most 11) that brings `bytes / 2^s`
/// below `2^53`.
pub open spec fn f64_shift_from(bytes: nat, from: nat) -> nat
    decreases 11 - from,
{
    if from >= 11 || bytes / pow2(from) < pow2(53) {
        from
    } else {
        f64_shift_from(bytes, from + 1)
    }
}

/// The value of `bytes as f64`: integers below `2^53` exactly; larger ones
/// rounded to the nearest multiple of the power of two that leaves 53
/// significant bits, ties to the even multiple.
pub open spec fn as_f64(bytes: nat) -> nat {
    let d = pow2(f64_shift_from(bytes, 0));
    round_half_even(bytes, d) * d
}

/// A size in its unit, in tenths, as `{:.1}` rounds the `f64` quotient.
pub open spec fn size_tenths(bytes: nat) -> nat {
    round_half_even(10 * as_f64(bytes), pow1024(size_unit(bytes)))
}

/// The character of a decimal digit.
pub open spec fn digit_char(d: nat) -> char {
    (d + '0' as u32) as char
}

/// Decimal notation of `n`.
pub open spec fn decimal(n: nat) -> Seq<char>
    decreases n,
{
    if n < 10 {
        seq![digit_char(n)]
    } else {
        decimal(n / 10).push(digit_char(n % 10))
    }
}

/// The size label: whole bytes as `N B`, larger sizes with one decimal in
/// the largest unit that fits, as `N.d K` up to `N.d T`.
pub open spec fn size_text(bytes: nat) -> Seq<char> {
    let unit = size_unit(bytes);
    if unit == 0 {
        decimal(bytes) + seq![' ', 'B']
    } else {
        let t = size_tenths(bytes);
        decimal(t / 10) + seq!['.', digit_char(t % 10), ' ', unit_letter(unit)]
    }
}

fn push_decimal(out: &mut Vec<char>, n: u64)
    ensures
        final(out)@ == old(out)@ + decimal(n as nat),
    decreases n,
{
    if n >= 10 {
        push_decimal(out, n / 10);
    }
    out.push(((n % 10) as u8 + 48) as char);
    proof {
        if n >= 10 {
            assert(old(out)@ + decimal((n / 10) as nat) + seq![digit_char((n % 10) as nat)]
                =~= old(out)@ + decimal(n as nat));
        } else {
            assert(old(out)@.push(digit_char(n as nat)) =~= old(out)@ + decimal(n as nat));
        }
    }
}

/// Decimal notation of `n`.
pub fn decimal_string(n: u64) -> (s: String)
    ensures
        s@ == decimal(n as nat),
{
    let mut v: Vec<char> = Vec::new();
    push_decimal(&mut v, n);
    assert(v@ =~= decimal(n as nat));
    string_of(&v)
}

fn round_div(n: u128, d: u128) -> (q: u128)
    requires
        0 < d < 0x1_0000_0000_0000_0000,
        n < 0x1_0000_0000_0000_0000_0000,
    ensures
        q == round_half_even(n as nat, d as nat),
        q <= n / d + 1,
{
    let q = n / d;
    let r = n % d;
    if 2 * r > d || (2 * r == d && q % 2 == 1) {
        q + 1
    } else {
        q
    }
}

proof fn lemma_pow2_step(s: nat)
    ensures
        pow2(s + 1) == 2 * pow2(s),
{
    vstd::arithmetic::power2::lemma_pow2_unfold(s + 1);
}

/// `bytes as f64`, as an integer.
fn f64_value(bytes: u64) -> (v: u128)
    ensures
        v == as_f64(bytes as nat),
        v <= 0x1_0000_0000_0000_0800,
{
    let mut s: u32 = 0;
    let mut d: u64 = 1;
    let limit: u64 = 0x20_0000_0000_0000;
    proof {
        vstd::arithmetic::power2::lemma2_to64();
        vstd::arithmetic::power2::lemma2_to64_rest();
        assert(pow2(0) == 1);
    }
    assert(f64_shift_from(bytes as nat, 0) == f64_shift_from(bytes as nat, s as nat));
    while s < 11 && bytes / d >= limit
        invariant
            s <= 11,
            d == pow2(s as nat),
            1 <= d <= 2048,
            limit == pow2(53),
            f64_shift_from(bytes as nat, 0) == f64_shift_from(bytes as nat, s as nat),
        decreases 11 - s,
    {
        proof {
            lemma_pow2_step(s as nat);
            assert(pow2(11) == 2048) by {
                vstd::arithmetic::power2::lemma2_to64();
            }
            if s + 1 < 11 {
                vstd::arithmetic::power2::lemma_pow2_strictly_increases((s + 1) as nat, 11);
            }
        }
        d = d * 2;
        s = s + 1;
    }
    proof {
        assert(f64_shift_from(bytes as nat, s as nat) == s);
        assert(d <= 2048) by {
            if s < 11 {
                vstd::arithmetic::power2::lemma_pow2_strictly_increases(s as nat, 11);
            }
            vstd::arithmetic::power2::lemma2_to64();
        }
    }
    let q = round_div(bytes as u128, d as u128);
    proof {
        assert(q <= bytes / d + 1);
        assert(q * d <= bytes + d) by (nonlinear_arith)
            requires
                q <= bytes / d + 1,
                d > 0,
        {
            assert((bytes / d) * d <= bytes) by {
                vstd::arithmetic::div_mod::lemma_fundamental_div_mod(bytes as int, d as int);
            }
        }
    }
    let v = q * (d as u128);
    v
}

/// A byte count in human units: `N B` below 1 KiB, otherwise the value in
/// the largest unit (up to TiB) with one decimal, as in `1.5 K`.
pub fn format_size(bytes: u64) -> (s: String)
    ensures
        s@ == size_text(bytes as nat),
{
    let mut v: Vec<char> = Vec::new();
    if bytes < 1024 {
        push_decimal(&mut v, bytes);
        v.push(' ');
        v.push('B');
        assert(v@ =~= size_text(bytes as nat));
        return string_of(&v);
    }
    let (unit, letter): (u32, char) = if bytes < 1024 * 1024 {
        (1, 'K')
    } else if bytes < 1024 * 1024 * 1024 {
        (2, 'M')
    } else if bytes < 1024 * 1024 * 1024 * 1024 {
        (3, 'G')
    } else {
        (4, 'T')
    };
    let mut den: u128 = 1;
    let mut k: u32 = 0;
    while k < unit
        invariant
            k <= unit <= 4,
            den == pow1024(k as nat),
            1 <= den <= 0x100_0000_0000,
            k >= 1 ==> den >= 1024,
        decreases unit - k,
    {
        proof {
            assert(pow1024((k + 1) as nat) == 1024 * pow1024(k as nat));
            assert(k < 4);
            reveal_with_fuel(pow1024, 5);
            assert(pow1024(k as nat) <= pow1024(3));
        }
        den = den * 1024;
        k = k + 1;
    }
    let value = f64_value(bytes);
    let tenths = round_div(10 * value, den);
    proof {
        assert(unit == size_unit(bytes as nat));
        assert(tenths == size_tenths(bytes as nat));
    }
    assert(tenths / 10 <= u64::MAX) by (nonlinear_arith)
        requires
            tenths <= (10 * value) / (den as int) + 1,
            den >= 1024,
            value <= 0x1_0000_0000_0000_0800,
    ;
    push_decimal(&mut v, (tenths / 10) as u64);
    v.push('.');
    v.push(((tenths % 10) as u8 + 48) as char);
    v.push(' ');
    v.push(letter);
    proof {
        assert(letter == unit_letter(unit as nat));
        assert(v@ =~= size_text(bytes as nat));
    }
    string_of(&v)
}

/// The `%Y-%m-%d %H:%M` text of the time `secs` seconds after the epoch,
/// read at the fixed offset of `offset` seconds east of UTC.
pub uninterp spec fn offset_minute_text(secs: int, offset: int) -> Seq<char>;

/// The machine's local offset from UTC, in seconds east, at the time `secs`
/// seconds after the epoch (chrono's `DateTime::from_timestamp`, then
/// `with_timezone(&Local)`, `offset` and `FixedOffset::local_minus_utc`).
/// A `FixedOffset` only exists strictly within a day of UTC, so that bound
/// is claimed; the offset itself depends on the machine's time zone
/// settings and is left unsaid.
#[verifier::external_body]
fn local_offset_at(secs: i64) -> (offset: i32)
    requires
        MIN_LABEL_SECS <= secs <= MAX_LABEL_SECS,
    ensures
        -86_400 < offset < 86_400,
{
    match chrono::DateTime::from_timestamp(secs, 0) {
        Some(dt) => dt.with_timezone(&chrono::Local).offset().local_minus_utc(),
        None => 0,
    }
}

/// Formats the time `secs` seconds after the epoch as `YYYY-MM-DD HH:MM`
/// at the fixed offset `offset` (chrono's `DateTime::from_timestamp`,
/// `FixedOffset::east_opt`, `with_timezone` and `format`). The text depends
/// on the two arguments alone and is named `offset_minute_text`. Within
/// the calendar's range `from_timestamp` gives a time, and `%Y`, `%m`,
/// `%d`, `%H` and `%M` write a year of at least four digits (signed outside
/// 0 to 9999) and two zero-padded digits each: that shape is claimed too.
#[verifier::external_body]
fn offset_minute_label(secs: i64, offset: i32) -> (label: String)
    requires
        MIN_LABEL_SECS <= secs <= MAX_LABEL_SECS,
        -86_400 < offset < 86_400,
    ensures
        label@ == offset_minute_text(secs as int, offset as int),
        is_minute_label(label@),
{
    match (chrono::DateTime::from_timestamp(secs, 0), chrono::FixedOffset::east_opt(offset)) {
        (Some(dt), Some(o)) => dt.with_timezone(&o).format("%Y-%m-%d %H:%M").to_string(),
        _ => String::new(),
    }
}

/// The signed count of nanoseconds since the epoch that `t` stands for.
pub open spec fn timestamp_nanos(t: Timestamp) -> int {
    t.secs * 1_000_000_000 + t.nanos
}

impl Timestamp {
    /// The timestamp of a time `secs` seconds and `nanos` nanoseconds away
    /// from the epoch, before it when `before_epoch`: seconds rounded down,
    /// so that the nanoseconds count forward. `None` when the seconds do
    /// not fit in an `i64`.
    pub fn from_epoch_distance(before_epoch: bool, secs: u64, nanos: u32) -> (t: Option<Timestamp>)
        requires
            nanos < 1_000_000_000,
        ensures
            t is Some <==> secs <= i64::MAX,
            t matches Some(ts) ==> {
                &&& ts.nanos < 1_000_000_000
                &&& timestamp_nanos(ts) == if before_epoch {
                    -(secs * 1_000_000_000 + nanos)
                } else {
                    secs * 1_000_000_000 + nanos
                }
            },
    {
        if secs > 9_223_372_036_854_775_807 {
            return None;
        }
        let s: i64 = secs as i64;
        if !before_epoch {
            Some(Timestamp { secs: s, nanos })
        } else if nanos == 0 {
            Some(Timestamp { secs: -s, nanos: 0 })
        } else {
            Some(Timestamp { secs: -s - 1, nanos: 1_000_000_000 - nanos })
        }
    }

    /// Whether local-time formatting handles this timestamp.
    pub fn in_range(&self) -> (r: bool)
        ensures
            r == timestamp_in_range(*self),
    {
        MIN_LABEL_SECS <= self.secs && self.secs <= MAX_LABEL_SECS && self.nanos < 1_000_000_000
    }
}

impl DirEntry {
    /// The entry for `path` with the metadata the file system reported.
    pub fn from_meta(path: String, meta: &FileMeta) -> (e: Self)
        ensures
            e.path@ == path@,
            e.name@ == display_name(path@),
            e.kind == kind_of(*meta),
            e.size == (if kind_of(*meta) == FileKind::File { Some(meta.len) } else { None }),
            e.modified == meta.modified,
            e.hidden == is_hidden_name(display_name(path@)),
    {
        let name = match file_name_of(path.as_str()) {
            Some(n) => n,
            None => path.clone(),
        };
        let chars = chars_of(name.as_str());
        let hidden = chars.len() > 0 && chars[0] == '.';
        let kind = if meta.is_symlink {
            FileKind::Symlink
        } else if meta.is_dir {
            FileKind::Directory
        } else if meta.is_file {
            FileKind::File
        } else {
            FileKind::Other
        };
        let size = if kind == FileKind::File {
            Some(meta.len)
        } else {
            None
        };
        DirEntry { path, name, kind, size, modified: meta.modified, hidden }
    }

    /// Whether the entry is a directory (a link to one is a link).
    pub fn is_dir(&self) -> (r: bool)
        ensures
            r == (self.kind == FileKind::Directory),
    {
        self.kind == FileKind::Directory
    }

    /// The size column: the size of a file, a dash for anything else.
    pub fn size_label(&self) -> (s: String)
        ensures
            s@ == match self.size {
                Some(n) => size_text(n as nat),
                None => "—"@,
            },
    {
        match self.size {
            Some(n) => format_size(n),
            None => String::from_str("—"),
        }
    }

    /// The modified column: the time read at the machine's local offset
    /// from UTC (some offset within a day), to the minute, or a dash when
    /// the file system gave no time.
    pub fn modified_label(&self) -> (s: String)
        requires
            self.modified matches Some(t) ==> timestamp_in_range(t),
        ensures
            self.modified is None ==> s@ == "—"@,
            self.modified matches Some(t) ==> exists|o: int|
                -86_400 < o < 86_400 && s@ == offset_minute_text(t.secs as int, o),
            self.modified is Some ==> is_minute_label(s@),
    {
        match self.modified {
            Some(t) => {
                let offset = local_offset_at(t.secs);
                offset_minute_label(t.secs, offset)
            },
            None => String::from_str("—"),
        }
    }
}

/// The directory that holds `path`, if it has one (`Path::parent`).
pub fn parent_of(path: &str) -> (r: Option<String>)
    ensures
        r is Some <==> path_parent(path@) is Some,
        r matches Some(q) ==> path_parent(path@) == Some(q@),
        (path@.len() == 0 || is_root_only(path@)) ==> r is None,
        r matches Some(q) ==> q@.len() < path@.len() && q@ == path@.take(q@.len() as int),
{
    parent_path(path)
}

} // verus!
