//! Hex color values: parsing `#rgb` / `#rrggbb`, formatting `#rrggbb`,
//! blending two colors and telling dark colors from light ones.
use vstd::prelude::*;
use crate::text::{is_ws, trim, chars_of, trim_chars, string_of};

verus! {

/// An sRGB color with 8-bit channels.
#[derive(Clone, Copy, Debug, PartialEq, Eq, Structural)]
pub struct RgbaColor {
    pub r: u8,
    pub g: u8,
    pub b: u8,
}

/// What parsing a color value does: it fails on a byte slice that would cut
/// a multi-byte character, finds no color, or finds one.
pub enum HexOutcome {
    Panic,
    NoColor,
    Color(RgbaColor),
}

/// Value of a hexadecimal digit (`char::to_digit(16)`).
pub open spec fn hex_val(c: char) -> Option<u8> {
    if '0' <= c <= '9' {
        Some((c as u32 - '0' as u32) as u8)
    } else if 'a' <= c <= 'f' {
        Some((c as u32 - 'a' as u32 + 10) as u8)
    } else if 'A' <= c <= 'F' {
        Some((c as u32 - 'A' as u32 + 10) as u8)
    } else {
        None
    }
}

/// `u8::from_str_radix(s, 16)` on the two-character string `s = [a, b]`:
/// an optional `+` sign, then hexadecimal digits.
pub open spec fn hex_pair(a: char, b: char) -> Option<u8> {
    if a == '+' {
        hex_val(b)
    } else {
        match (hex_val(a), hex_val(b)) {
            (Some(x), Some(y)) => Some((16 * x + y) as u8),
            _ => None,
        }
    }
}

/// Number of bytes of `c` in UTF-8.
pub open spec fn char_width(c: char) -> int {
    let u = c as u32;
    if u < 0x80 {
        1
    } else if u < 0x800 {
        2
    } else if u < 0x10000 {
        3
    } else {
        4
    }
}

/// Number of bytes of `s` in UTF-8 (`str::len`).
pub open spec fn byte_len(s: Seq<char>) -> int
    decreases s.len(),
{
    if s.len() == 0 {
        0
    } else {
        char_width(s[0]) + byte_len(s.drop_first())
    }
}

/// `s` without leading and trailing `"` and `'` characters.
pub open spec fn trim_quotes_start(s: Seq<char>) -> Seq<char>
    decreases s.len(),
{
    if s.len() > 0 && (s[0] == '"' || s[0] == '\'') {
        trim_quotes_start(s.drop_first())
    } else {
        s
    }
}

pub open spec fn trim_quotes_end(s: Seq<char>) -> Seq<char>
    decreases s.len(),
{
    if s.len() > 0 && (s.last() == '"' || s.last() == '\'') {
        trim_quotes_end(s.drop_last())
    } else {
        s
    }
}

/// `str::trim_matches` with the quote characters.
pub open spec fn trim_quotes(s: Seq<char>) -> Seq<char> {
    trim_quotes_end(trim_quotes_start(s))
}

/// The `#rgb` form: each digit is doubled and read on its own.
pub open spec fn three_digit_outcome(h: Seq<char>) -> HexOutcome {
    if char_width(h[0]) != 1 {
        HexOutcome::Panic
    } else {
        match hex_pair(h[0], h[0]) {
            None => HexOutcome::NoColor,
            Some(r) => if char_width(h[1]) != 1 {
                HexOutcome::Panic
            } else {
                match hex_pair(h[1], h[1]) {
                    None => HexOutcome::NoColor,
                    Some(g) => match hex_pair(h[2], h[2]) {
                        None => HexOutcome::NoColor,
                        Some(b) => HexOutcome::Color(RgbaColor { r, g, b }),
                    },
                }
            },
        }
    }
}

/// The `#rrggbb` form: three two-byte slices, read in turn.
pub open spec fn six_digit_outcome(h: Seq<char>) -> HexOutcome {
    if char_width(h[0]) == 2 {
        HexOutcome::NoColor
    } else if char_width(h[0]) != 1 || char_width(h[1]) != 1 {
        HexOutcome::Panic
    } else {
        match hex_pair(h[0], h[1]) {
            None => HexOutcome::NoColor,
            Some(r) => if char_width(h[2]) == 2 {
                HexOutcome::NoColor
            } else if char_width(h[2]) != 1 || char_width(h[3]) != 1 {
                HexOutcome::Panic
            } else {
                match hex_pair(h[2], h[3]) {
                    None => HexOutcome::NoColor,
                    Some(g) => if char_width(h[4]) == 2 {
                        HexOutcome::NoColor
                    } else {
                        match hex_pair(h[4], h[5]) {
                            None => HexOutcome::NoColor,
                            Some(b) => HexOutcome::Color(RgbaColor { r, g, b }),
                        }
                    },
                }
            },
        }
    }
}

/// What `parse_hex_color` makes of `value`: surrounding whitespace and
/// quotes are dropped, a `#` must follow, then three or six bytes of digits.
pub open spec fn hex_outcome(value: Seq<char>) -> HexOutcome {
    let v = trim_quotes(trim(value));
    if v.len() == 0 || v[0] != '#' {
        HexOutcome::NoColor
    } else {
        let h = v.drop_first();
        if byte_len(h) == 3 {
            three_digit_outcome(h)
        } else if byte_len(h) == 6 {
            six_digit_outcome(h)
        } else {
            HexOutcome::NoColor
        }
    }
}

/// Whether parsing `value` would cut a multi-byte character.
pub open spec fn hex_parse_panics(value: Seq<char>) -> bool {
    hex_outcome(value) is Panic
}

/// The color that `value` denotes, if any.
pub open spec fn hex_color(value: Seq<char>) -> Option<RgbaColor> {
    match hex_outcome(value) {
        HexOutcome::Color(c) => Some(c),
        _ => None,
    }
}

/// Lowercase hexadecimal digit of `n < 16`.
pub open spec fn hex_digit_char(n: int) -> char {
    if n < 10 {
        (n + '0' as u32) as char
    } else {
        (n - 10 + 'a' as u32) as char
    }
}

/// `#rrggbb` in lowercase, as `format!("#{:02x}{:02x}{:02x}")` writes it.
pub open spec fn hex_string(c: RgbaColor) -> Seq<char> {
    seq![
        '#',
        hex_digit_char((c.r / 16) as int),
        hex_digit_char((c.r % 16) as int),
        hex_digit_char((c.g / 16) as int),
        hex_digit_char((c.g % 16) as int),
        hex_digit_char((c.b / 16) as int),
        hex_digit_char((c.b % 16) as int),
    ]
}

/// One channel blended: `weight` percent of `y`, the rest of `x`,
/// rounded to the nearest integer with halves rounded up.
pub open spec fn mix_channel(x: u8, y: u8, weight: int) -> u8 {
    ((x * (100 - weight) + y * weight + 50) / 100) as u8
}

/// `from` blended with `weight` percent of `to`.
pub open spec fn mix_color(from: RgbaColor, to: RgbaColor, weight: int) -> RgbaColor {
    RgbaColor {
        r: mix_channel(from.r, to.r, weight),
        g: mix_channel(from.g, to.g, weight),
        b: mix_channel(from.b, to.b, weight),
    }
}

/// Weighted luminance `0.299 r + 0.587 g + 0.114 b`, in units of 1/255000.
pub open spec fn luminance_units(c: RgbaColor) -> int {
    299 * c.r + 587 * c.g + 114 * c.b
}

/// Whether a background of color `c` reads as dark: its luminance is below
/// one half. Exactly at one half, single-precision rounding puts one color,
/// `(233, 49, 255)`, below the line and every other color on or above it.
pub open spec fn is_dark_color(c: RgbaColor) -> bool {
    luminance_units(c) < 127500 || (c.r == 233 && c.g == 49 && c.b == 255)
}

impl RgbaColor {
    /// Luminance `0.299 r + 0.587 g + 0.114 b` of the channels taken as
    /// fractions of 255, in units of 1/255000 (so 255000 is white).
    pub fn luminance(self) -> (l: u32)
        ensures
            l == luminance_units(self),
    {
        299 * (self.r as u32) + 587 * (self.g as u32) + 114 * (self.b as u32)
    }

    /// Whether this color, as a background, makes a dark theme.
    pub fn is_dark(self) -> (d: bool)
        ensures
            d == is_dark_color(self),
    {
        self.luminance() < 127500 || (self.r == 233 && self.g == 49 && self.b == 255)
    }
}

fn hex_value(c: char) -> (r: Option<u8>)
    ensures
        r == hex_val(c),
{
    if '0' <= c && c <= '9' {
        Some((c as u32 - '0' as u32) as u8)
    } else if 'a' <= c && c <= 'f' {
        Some((c as u32 - 'a' as u32 + 10) as u8)
    } else if 'A' <= c && c <= 'F' {
        Some((c as u32 - 'A' as u32 + 10) as u8)
    } else {
        None
    }
}

fn parse_pair(a: char, b: char) -> (r: Option<u8>)
    ensures
        r == hex_pair(a, b),
{
    if a == '+' {
        hex_value(b)
    } else {
        match (hex_value(a), hex_value(b)) {
            (Some(x), Some(y)) => Some(16 * x + y),
            _ => None,
        }
    }
}

fn width_of(c: char) -> (w: usize)
    ensures
        w == char_width(c),
{
    let u = c as u32;
    if u < 0x80 {
        1
    } else if u < 0x800 {
        2
    } else if u < 0x10000 {
        3
    } else {
        4
    }
}

proof fn lemma_byte_len_bounds(s: Seq<char>)
    ensures
        s.len() <= byte_len(s) <= 4 * s.len(),
    decreases s.len(),
{
    if s.len() > 0 {
        lemma_byte_len_bounds(s.drop_first());
    }
}

proof fn lemma_byte_len_split(s: Seq<char>, i: int)
    requires
        0 <= i <= s.len(),
    ensures
        byte_len(s) == byte_len(s.take(i)) + byte_len(s.skip(i)),
    decreases i,
{
    if i > 0 {
        lemma_byte_len_split(s.drop_first(), i - 1);
        assert(s.take(i).drop_first() =~= s.drop_first().take(i - 1));
        assert(s.drop_first().skip(i - 1) =~= s.skip(i));
    } else {
        assert(s.skip(0) =~= s);
    }
}

/// `min(byte_len(h), 7)`.
fn byte_len_capped(h: &[char]) -> (n: usize)
    ensures
        n == if byte_len(h@) < 7 { byte_len(h@) } else { 7 },
{
    let mut n: usize = 0;
    let mut i: usize = 0;
    while i < h.len() && n < 7
        invariant
            0 <= i <= h@.len(),
            n == byte_len(h@.take(i as int)),
            n <= 10,
        decreases h@.len() - i,
    {
        proof {
            lemma_byte_len_split(h@.take(i + 1), i as int);
            assert(h@.take(i + 1).take(i as int) =~= h@.take(i as int));
            assert(h@.take(i + 1).skip(i as int) =~= seq![h@[i as int]]);
            assert(byte_len(seq![h@[i as int]]) == char_width(h@[i as int])) by {
                let one = seq![h@[i as int]];
                assert(one.drop_first() =~= Seq::<char>::empty());
                assert(byte_len(one.drop_first()) == 0);
                lemma_byte_len_unfold(one);
            }
        }
        n = n + width_of(h[i]);
        i = i + 1;
    }
    proof {
        lemma_byte_len_split(h@, i as int);
        lemma_byte_len_bounds(h@.skip(i as int));
        if i == h@.len() {
            assert(h@.take(i as int) =~= h@);
        }
    }
    if n < 7 { n } else { 7 }
}

proof fn lemma_byte_len_unfold(s: Seq<char>)
    requires
        s.len() > 0,
    ensures
        byte_len(s) == char_width(s[0]) + byte_len(s.drop_first()),
{
}

fn three_digits(h: &[char]) -> (r: HexOutcome)
    requires
        byte_len(h@) == 3,
    ensures
        r == three_digit_outcome(h@),
{
    proof {
        lemma_byte_len_bounds(h@);
        lemma_byte_len_unfold(h@);
    }
    if width_of(h[0]) != 1 {
        return HexOutcome::Panic;
    }
    let r = match parse_pair(h[0], h[0]) {
        None => return HexOutcome::NoColor,
        Some(r) => r,
    };
    proof {
        let t = h@.drop_first();
        lemma_byte_len_bounds(t);
        lemma_byte_len_unfold(t);
        assert(t[0] == h@[1]);
    }
    if width_of(h[1]) != 1 {
        return HexOutcome::Panic;
    }
    let g = match parse_pair(h[1], h[1]) {
        None => return HexOutcome::NoColor,
        Some(g) => g,
    };
    proof {
        let t = h@.drop_first().drop_first();
        lemma_byte_len_bounds(t);
        assert(t.len() >= 1);
    }
    match parse_pair(h[2], h[2]) {
        None => HexOutcome::NoColor,
        Some(b) => HexOutcome::Color(RgbaColor { r, g, b }),
    }
}

fn six_digits(h: &[char]) -> (r: HexOutcome)
    requires
        byte_len(h@) == 6,
    ensures
        r == six_digit_outcome(h@),
{
    let ghost s0 = h@;
    let ghost s1 = s0.drop_first();
    let ghost s2 = s1.drop_first();
    let ghost s3 = s2.drop_first();
    let ghost s4 = s3.drop_first();
    let ghost s5 = s4.drop_first();
    proof {
        lemma_byte_len_bounds(s0);
        lemma_byte_len_unfold(s0);
    }
    if width_of(h[0]) == 2 {
        return HexOutcome::NoColor;
    }
    if width_of(h[0]) != 1 {
        return HexOutcome::Panic;
    }
    proof {
        lemma_byte_len_bounds(s1);
        lemma_byte_len_unfold(s1);
        assert(s1[0] == h@[1]);
    }
    if width_of(h[1]) != 1 {
        return HexOutcome::Panic;
    }
    let r = match parse_pair(h[0], h[1]) {
        None => return HexOutcome::NoColor,
        Some(r) => r,
    };
    proof {
        lemma_byte_len_bounds(s2);
        lemma_byte_len_unfold(s2);
        assert(s2[0] == h@[2]);
    }
    if width_of(h[2]) == 2 {
        return HexOutcome::NoColor;
    }
    if width_of(h[2]) != 1 {
        return HexOutcome::Panic;
    }
    proof {
        lemma_byte_len_bounds(s3);
        lemma_byte_len_unfold(s3);
        assert(s3[0] == h@[3]);
    }
    if width_of(h[3]) != 1 {
        return HexOutcome::Panic;
    }
    let g = match parse_pair(h[2], h[3]) {
        None => return HexOutcome::NoColor,
        Some(g) => g,
    };
    proof {
        lemma_byte_len_bounds(s4);
        lemma_byte_len_unfold(s4);
        assert(s4[0] == h@[4]);
    }
    if width_of(h[4]) == 2 {
        return HexOutcome::NoColor;
    }
    proof {
        lemma_byte_len_bounds(s5);
        assert(s5.len() >= 1);
        assert(s5[0] == h@[5]);
    }
    match parse_pair(h[4], h[5]) {
        None => HexOutcome::NoColor,
        Some(b) => HexOutcome::Color(RgbaColor { r, g, b }),
    }
}


proof fn lemma_trim_quotes_start_at(s: Seq<char>, i: int)
    requires
        0 <= i <= s.len(),
        forall|k: int| 0 <= k < i ==> (s[k] == '"' || s[k] == '\''),
        i < s.len() ==> !(s[i] == '"' || s[i] == '\''),
    ensures
        trim_quotes_start(s) == s.subrange(i, s.len() as int),
    decreases i,
{
    if i > 0 {
        assert forall|k: int| 0 <= k < i - 1 implies (s.drop_first()[k] == '"'
            || s.drop_first()[k] == '\'') by {
            assert(s.drop_first()[k] == s[k + 1]);
        }
        lemma_trim_quotes_start_at(s.drop_first(), i - 1);
        assert(s.drop_first().subrange(i - 1, s.len() - 1) =~= s.subrange(i, s.len() as int));
    } else {
        assert(s.subrange(0, s.len() as int) =~= s);
    }
}

proof fn lemma_trim_quotes_end_at(s: Seq<char>, j: int)
    requires
        0 <= j <= s.len(),
        forall|k: int| j <= k < s.len() ==> (s[k] == '"' || s[k] == '\''),
        j > 0 ==> !(s[j - 1] == '"' || s[j - 1] == '\''),
    ensures
        trim_quotes_end(s) == s.subrange(0, j),
    decreases s.len() - j,
{
    if j < s.len() {
        assert forall|k: int| j <= k < s.len() - 1 implies (s.drop_last()[k] == '"'
            || s.drop_last()[k] == '\'') by {
            assert(s.drop_last()[k] == s[k]);
        }
        lemma_trim_quotes_end_at(s.drop_last(), j);
        assert(s.drop_last().subrange(0, j) =~= s.subrange(0, j));
    } else {
        assert(s.subrange(0, j) =~= s);
    }
}

fn is_quote(c: char) -> (r: bool)
    ensures
        r == (c == '"' || c == '\''),
{
    c == '"' || c == '\''
}

/// `v` without leading and trailing quote characters.
fn trim_quote_chars(v: &[char]) -> (r: (usize, usize))
    ensures
        r.0 <= r.1 <= v@.len(),
        v@.subrange(r.0 as int, r.1 as int) == trim_quotes(v@),
{
    let n = v.len();
    let mut i: usize = 0;
    while i < n && is_quote(v[i])
        invariant
            0 <= i <= n == v@.len(),
            forall|k: int| 0 <= k < i ==> (v@[k] == '"' || v@[k] == '\''),
        decreases n - i,
    {
        i = i + 1;
    }
    proof {
        lemma_trim_quotes_start_at(v@, i as int);
    }
    let ghost t = v@.subrange(i as int, n as int);
    let mut j: usize = n;
    while j > i && is_quote(v[j - 1])
        invariant
            i <= j <= n == v@.len(),
            t == v@.subrange(i as int, n as int),
            forall|k: int| j <= k < n ==> (v@[k] == '"' || v@[k] == '\''),
        decreases j,
    {
        j = j - 1;
    }
    proof {
        assert forall|k: int| j - i <= k < t.len() implies (t[k] == '"' || t[k] == '\'') by {
            assert(t[k] == v@[k + i]);
        }
        if j > i {
            assert(t[j - i - 1] == v@[j - 1]);
        }
        lemma_trim_quotes_end_at(t, j - i);
        assert(t.subrange(0, j - i) =~= v@.subrange(i as int, j as int));
    }
    (i, j)
}

/// What parsing the color value `value` does (see `hex_outcome`).
pub fn hex_outcome_of(value: &[char]) -> (r: HexOutcome)
    ensures
        r == hex_outcome(value@),
{
    let t = trim_chars(value);
    let (lo, hi) = trim_quote_chars(&t);
    if lo == hi || t[lo] != '#' {
        return HexOutcome::NoColor;
    }
    let h = crate::text::sub_chars(&t, lo + 1, hi);
    proof {
        let v = trim_quotes(trim(value@));
        assert(h@ =~= v.drop_first());
    }
    let n = byte_len_capped(&h);
    if n == 3 {
        three_digits(&h)
    } else if n == 6 {
        six_digits(&h)
    } else {
        HexOutcome::NoColor
    }
}

/// Parses a `#rgb` or `#rrggbb` color value, ignoring surrounding
/// whitespace and quotes.
pub fn parse_hex_color(value: &str) -> (r: Option<RgbaColor>)
    requires
        !hex_parse_panics(value@),
    ensures
        r == hex_color(value@),
{
    let v = chars_of(value);
    parse_hex_chars(&v)
}

/// `parse_hex_color` on a character vector.
pub fn parse_hex_chars(value: &[char]) -> (r: Option<RgbaColor>)
    requires
        !hex_parse_panics(value@),
    ensures
        r == hex_color(value@),
{
    match hex_outcome_of(value) {
        HexOutcome::Color(c) => Some(c),
        _ => None,
    }
}

fn digit_char(n: u8) -> (c: char)
    requires
        n < 16,
    ensures
        c == hex_digit_char(n as int),
{
    if n < 10 {
        (n + 48) as char
    } else {
        (n - 10 + 97) as char
    }
}

/// `#rrggbb` in lowercase hexadecimal.
pub fn format_hex(c: RgbaColor) -> (s: String)
    ensures
        s@ == hex_string(c),
{
    let v: Vec<char> = vec![
        '#',
        digit_char(c.r / 16),
        digit_char(c.r % 16),
        digit_char(c.g / 16),
        digit_char(c.g % 16),
        digit_char(c.b / 16),
        digit_char(c.b % 16),
    ];
    let s = string_of(&v);
    assert(s@ =~= hex_string(c));
    s
}

fn mix_u8(x: u8, y: u8, weight: u8) -> (m: u8)
    requires
        weight <= 100,
    ensures
        m == mix_channel(x, y, weight as int),
{
    let w1: u32 = (100 - weight) as u32;
    let w2: u32 = weight as u32;
    let xx: u32 = x as u32;
    let yy: u32 = y as u32;
    assert(xx * w1 <= 255 * w1 && yy * w2 <= 255 * w2) by (nonlinear_arith)
        requires
            xx <= 255,
            yy <= 255,
    ;
    let p = xx * w1;
    let q = yy * w2;
    let a = p + q + 50;
    (a / 100) as u8
}

/// `from` blended with `weight` percent of `to`, channel by channel.
pub fn mix(from: RgbaColor, to: RgbaColor, weight: u8) -> (c: RgbaColor)
    requires
        weight <= 100,
    ensures
        c == mix_color(from, to, weight as int),
{
    RgbaColor {
        r: mix_u8(from.r, to.r, weight),
        g: mix_u8(from.g, to.g, weight),
        b: mix_u8(from.b, to.b, weight),
    }
}

/// The blend of `from` with `weight` percent of `to`, written `#rrggbb`.
pub fn mix_hex(from: &RgbaColor, to: &RgbaColor, weight: u8) -> (s: String)
    requires
        weight <= 100,
    ensures
        s@ == hex_string(mix_color(*from, *to, weight as int)),
{
    format_hex(mix(*from, *to, weight))
}

proof fn lemma_digit_roundtrip(n: int)
    requires
        0 <= n < 16,
    ensures
        hex_val(hex_digit_char(n)) == Some(n as u8),
        char_width(hex_digit_char(n)) == 1,
        !is_ws(hex_digit_char(n)),
        hex_digit_char(n) != '"' && hex_digit_char(n) != '\'' && hex_digit_char(n) != '+',
{
}

/// Writing a color as `#rrggbb` and parsing it back gives the color again.
pub proof fn lemma_hex_roundtrip(c: RgbaColor)
    ensures
        hex_color(hex_string(c)) == Some(c),
        !hex_parse_panics(hex_string(c)),
{
    let s = hex_string(c);
    lemma_digit_roundtrip((c.r / 16) as int);
    lemma_digit_roundtrip((c.r % 16) as int);
    lemma_digit_roundtrip((c.g / 16) as int);
    lemma_digit_roundtrip((c.g % 16) as int);
    lemma_digit_roundtrip((c.b / 16) as int);
    lemma_digit_roundtrip((c.b % 16) as int);
    assert(!is_ws(s[0]) && !is_ws(s[6]));
    crate::text::lemma_trim_start_at(s, 0);
    assert(s.subrange(0, 7) =~= s);
    crate::text::lemma_trim_end_at(s, 7);
    assert(trim(s) == s);
    lemma_trim_quotes_start_at(s, 0);
    lemma_trim_quotes_end_at(s, 7);
    assert(trim_quotes(s) == s);
    let h = s.drop_first();
    reveal_with_fuel(byte_len, 7);
    assert(byte_len(h) == 6);
    assert(16 * ((c.r / 16) as u8) + ((c.r % 16) as u8) == c.r);
    assert(16 * ((c.g / 16) as u8) + ((c.g % 16) as u8) == c.g);
    assert(16 * ((c.b / 16) as u8) + ((c.b % 16) as u8) == c.b);
}

/// `s` without its leading `#` characters.
pub open spec fn trim_hashes(s: Seq<char>) -> Seq<char>
    decreases s.len(),
{
    if s.len() > 0 && s[0] == '#' {
        trim_hashes(s.drop_first())
    } else {
        s
    }
}

/// Each character of `s` written twice, as `#abc` spells `#aabbcc`.
pub open spec fn doubled(s: Seq<char>) -> Seq<char>
    decreases s.len(),
{
    if s.len() == 0 {
        s
    } else {
        doubled(s.drop_last()) + seq![s.last(), s.last()]
    }
}

/// Whether every character of `s` is a hexadecimal digit.
pub open spec fn all_hex(s: Seq<char>) -> bool {
    forall|i: int| 0 <= i < s.len() ==> hex_val(#[trigger] s[i]) is Some
}

/// The number that the hexadecimal digits `s` spell.
pub open spec fn hex_number(s: Seq<char>) -> nat
    decreases s.len(),
{
    if s.len() == 0 {
        0
    } else {
        16 * hex_number(s.drop_last()) + (hex_val(s.last())->0 as nat)
    }
}

/// `u32::from_str_radix(s, 16)`: an optional `+`, then at least one
/// hexadecimal digit, with a value that fits in 32 bits.
pub open spec fn radix16_u32(s: Seq<char>) -> Option<u32> {
    let digits = if s.len() > 0 && s[0] == '+' { s.drop_first() } else { s };
    if digits.len() == 0 || !all_hex(digits) || hex_number(digits) > u32::MAX {
        None
    } else {
        Some(hex_number(digits) as u32)
    }
}

/// The packed `0xRRGGBB` number a theme color paints with: surrounding
/// whitespace and leading `#`s dropped, a three-byte value doubled digit by
/// digit, the rest read as one hexadecimal number.
pub open spec fn rgb_value(value: Seq<char>) -> Option<u32> {
    let hex = trim_hashes(trim(value));
    radix16_u32(if byte_len(hex) == 3 { doubled(hex) } else { hex })
}

proof fn lemma_trim_hashes_at(s: Seq<char>, i: int)
    requires
        0 <= i <= s.len(),
        forall|k: int| 0 <= k < i ==> s[k] == '#',
        i < s.len() ==> s[i] != '#',
    ensures
        trim_hashes(s) == s.skip(i),
    decreases i,
{
    if i > 0 {
        assert forall|k: int| 0 <= k < i - 1 implies s.drop_first()[k] == '#' by {
            assert(s.drop_first()[k] == s[k + 1]);
        }
        lemma_trim_hashes_at(s.drop_first(), i - 1);
        assert(s.drop_first().skip(i - 1) =~= s.skip(i));
    } else {
        assert(s.skip(0) =~= s);
    }
}

/// The packed color number of a theme color value, as the window paints it.
pub fn rgb_of(value: &str) -> (n: Option<u32>)
    ensures
        n == rgb_value(value@),
{
    let t = trim_chars(&chars_of(value));
    let mut i: usize = 0;
    while i < t.len() && t[i] == '#'
        invariant
            0 <= i <= t@.len(),
            forall|k: int| 0 <= k < i ==> t@[k] == '#',
        decreases t@.len() - i,
    {
        i = i + 1;
    }
    proof {
        lemma_trim_hashes_at(t@, i as int);
        assert(t@.subrange(i as int, t@.len() as int) =~= t@.skip(i as int));
    }
    let hex = crate::text::sub_chars(&t, i, t.len());
    let digits: Vec<char> = if byte_len_capped(&hex) == 3 {
        let mut d: Vec<char> = Vec::new();
        let mut k: usize = 0;
        while k < hex.len()
            invariant
                0 <= k <= hex@.len(),
                byte_len(hex@) == 3,
                d@ == doubled(hex@.take(k as int)),
            decreases hex@.len() - k,
        {
            proof {
                lemma_byte_len_bounds(hex@);
                assert(hex@.take(k + 1).drop_last() =~= hex@.take(k as int));
            }
            d.push(hex[k]);
            d.push(hex[k]);
            k = k + 1;
        }
        assert(hex@.take(hex@.len() as int) =~= hex@);
        d
    } else {
        hex
    };
    parse_radix16(&digits)
}

/// `u32::from_str_radix(s, 16)` on a character vector.
fn parse_radix16(s: &[char]) -> (n: Option<u32>)
    ensures
        n == radix16_u32(s@),
{
    let start: usize = if s.len() > 0 && s[0] == '+' { 1 } else { 0 };
    let ghost digits = s@.skip(start as int);
    proof {
        if start == 1 {
            assert(digits =~= s@.drop_first());
        } else {
            assert(digits =~= s@);
        }
    }
    if start == s.len() {
        return None;
    }
    let mut acc: u64 = 0;
    let mut i: usize = start;
    while i < s.len()
        invariant
            start <= i <= s@.len(),
            digits == s@.skip(start as int),
            digits == (if s@.len() > 0 && s@[0] == '+' { s@.drop_first() } else { s@ }),
            all_hex(s@.subrange(start as int, i as int)),
            acc == hex_number(s@.subrange(start as int, i as int)),
            acc <= u32::MAX,
        decreases s@.len() - i,
    {
        let ghost prefix = s@.subrange(start as int, i as int);
        let ghost next = s@.subrange(start as int, i + 1);
        proof {
            assert(next.drop_last() =~= prefix);
            assert(next.last() == s@[i as int]);
        }
        match hex_value(s[i]) {
            None => {
                proof {
                    assert(digits[i - start] == s@[i as int]);
                    assert(hex_val(digits[i - start]) is None);
                    assert(!all_hex(digits));
                }
                return None;
            },
            Some(d) => {
                proof {
                    assert forall|k: int| 0 <= k < next.len() implies hex_val(#[trigger] next[k]) is Some by {
                        if k < prefix.len() {
                            assert(next[k] == prefix[k]);
                        }
                    }
                }
                let v = acc * 16 + d as u64;
                if v > 0xffff_ffff {
                    proof {
                        assert(digits.take((i + 1 - start) as int) =~= next);
                        if all_hex(digits) {
                            lemma_hex_number_grows(digits, (i + 1 - start) as int);
                        }
                    }
                    return None;
                }
                acc = v;
            },
        }
        i = i + 1;
    }
    assert(s@.subrange(start as int, s@.len() as int) =~= digits);
    Some(acc as u32)
}

/// A number only grows as more hexadecimal digits follow.
proof fn lemma_hex_number_grows(s: Seq<char>, k: int)
    requires
        0 <= k <= s.len(),
        all_hex(s),
    ensures
        hex_number(s) >= hex_number(s.take(k)),
    decreases s.len(),
{
    if k < s.len() {
        assert(all_hex(s.drop_last())) by {
            assert forall|i: int| 0 <= i < s.drop_last().len() implies hex_val(#[trigger] s.drop_last()[i]) is Some by {
                assert(s.drop_last()[i] == s[i]);
            }
        }
        lemma_hex_number_grows(s.drop_last(), k);
        assert(s.drop_last().take(k) =~= s.take(k));
    } else {
        assert(s.take(k) =~= s);
    }
}

/// Blending leaves a color as it is when it is blended with itself, with
/// weight 0, and becomes the other color at weight 100.
pub proof fn lemma_mix_bounds(a: RgbaColor, b: RgbaColor, weight: int)
    requires
        0 <= weight <= 100,
    ensures
        mix_color(a, a, weight) == a,
        mix_color(a, b, 0) == a,
        mix_color(a, b, 100) == b,
{
    assert forall|x: u8| mix_channel(x, x, weight) == x by {
        assert(x * (100 - weight) + x * weight == 100 * x) by (nonlinear_arith);
    }
    assert forall|x: u8, y: u8| mix_channel(x, y, 0) == x && mix_channel(x, y, 100) == y by {
        assert(x * (100 - 0) + y * 0 + 50 == 100 * x + 50);
        assert(x * (100 - 100) + y * 100 + 50 == 100 * y + 50);
    }
}

/// A blend lies between the two colors, channel by channel.
pub proof fn lemma_mix_between(x: u8, y: u8, weight: int)
    requires
        0 <= weight <= 100,
    ensures
        x <= y ==> x <= mix_channel(x, y, weight) <= y,
        y <= x ==> y <= mix_channel(x, y, weight) <= x,
{
    let t = x * (100 - weight) + y * weight;
    if x <= y {
        assert(100 * x <= t <= 100 * y) by (nonlinear_arith)
            requires
                x <= y,
                0 <= weight <= 100,
                t == x * (100 - weight) + y * weight,
        ;
    } else {
        assert(100 * y <= t <= 100 * x) by (nonlinear_arith)
            requires
                y <= x,
                0 <= weight <= 100,
                t == x * (100 - weight) + y * weight,
        ;
    }
}

} // verus!
