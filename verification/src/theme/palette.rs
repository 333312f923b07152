//! The desktop palette: built-in fallbacks, the `key = value` theme files
//! (`colors.toml`, `theme.conf`) and the colors derived when a theme leaves
//! some of them out.
use vstd::prelude::*;
use crate::text::{
    chars_of, chars_eq_str, find_char, find_char_from, first_index_of, has_char, is_ws,
    lemma_first_index_of, lemma_first_index_unique, lemma_split_on_last, lemma_trim_end_after,
    lemma_trim_end_at, lemma_trim_end_cut, lemma_trim_of_trim_end, lemma_trim_start_at,
    lemma_trim_start_cut, split_on, string_of, sub_chars, trim, trim_chars, trim_end, trim_start,
};
use super::color::{
    hex_color, hex_parse_panics, hex_string, is_dark_color, mix_color, mix_hex, parse_hex_color,
    rgb_of, rgb_value, RgbaColor, hex_outcome_of, HexOutcome,
};

verus! {

/// The colors the file browser paints with.
#[derive(Clone, Debug)]
pub struct OmarchyPalette {
    pub dark: bool,
    pub background: String,
    pub foreground: String,
    pub accent: String,
    pub selection: String,
    /// Raised panel color (sidebar, toolbar, status bar): the theme's
    /// `lighter_background`, derived from background/foreground when absent.
    pub surface: String,
    /// Secondary text color: the theme's `muted`, derived when absent.
    pub muted: String,
}

/// A palette as plain values.
pub struct PaletteModel {
    pub dark: bool,
    pub background: Seq<char>,
    pub foreground: Seq<char>,
    pub accent: Seq<char>,
    pub selection: Seq<char>,
    pub surface: Seq<char>,
    pub muted: Seq<char>,
}

impl View for OmarchyPalette {
    type V = PaletteModel;

    open spec fn view(&self) -> PaletteModel {
        PaletteModel {
            dark: self.dark,
            background: self.background@,
            foreground: self.foreground@,
            accent: self.accent@,
            selection: self.selection@,
            surface: self.surface@,
            muted: self.muted@,
        }
    }
}

/// The built-in palette: Omarchy's dark colors, or a light counterpart.
pub open spec fn fallback_model(dark: bool) -> PaletteModel {
    if dark {
        PaletteModel {
            dark: true,
            background: "#101010"@,
            foreground: "#eeeeee"@,
            accent: "#5584aa"@,
            selection: "#186a9a"@,
            surface: "#181818"@,
            muted: "#909191"@,
        }
    } else {
        PaletteModel {
            dark: false,
            background: "#ffffff"@,
            foreground: "#222324"@,
            accent: "#2077b2"@,
            selection: "#2077b2"@,
            surface: "#f2f2f2"@,
            muted: "#6b6f75"@,
        }
    }
}

/// Where reading a theme file has got to.
pub struct ScanModel {
    pub palette: PaletteModel,
    pub mode: Seq<char>,
    pub saw_surface: bool,
    pub saw_muted: bool,
}

/// A value with surrounding whitespace dropped and, when it is wrapped in a
/// matching pair of `"` or `'`, the pair dropped too.
pub open spec fn unquoted(value: Seq<char>) -> Seq<char> {
    let v = trim(value);
    if v.len() >= 2 && ((v[0] == '"' && v.last() == '"') || (v[0] == '\'' && v.last() == '\'')) {
        v.subrange(1, v.len() - 1)
    } else {
        v
    }
}

/// The effect of one `key = value` pair; unknown keys change nothing.
pub open spec fn apply_key(acc: ScanModel, key: Seq<char>, value: Seq<char>) -> ScanModel {
    let p = acc.palette;
    if key == "mode"@ {
        ScanModel { mode: value, ..acc }
    } else if key == "background"@ || key == "COLOR_BASE"@ {
        ScanModel { palette: PaletteModel { background: value, ..p }, ..acc }
    } else if key == "foreground"@ || key == "COLOR_TEXT"@ {
        ScanModel { palette: PaletteModel { foreground: value, ..p }, ..acc }
    } else if key == "accent"@ || key == "COLOR_PRIMARY"@ {
        ScanModel { palette: PaletteModel { accent: value, ..p }, ..acc }
    } else if key == "selection"@ || key == "COLOR_SURFACE"@ {
        ScanModel { palette: PaletteModel { selection: value, ..p }, ..acc }
    } else if key == "lighter_background"@ {
        ScanModel { palette: PaletteModel { surface: value, ..p }, saw_surface: true, ..acc }
    } else if key == "muted"@ || key == "dark_foreground"@ || key == "COLOR_SUBTEXT"@ {
        ScanModel { palette: PaletteModel { muted: value, ..p }, saw_muted: true, ..acc }
    } else {
        acc
    }
}

/// The effect of one line: blank lines, `#` comments and lines without `=`
/// change nothing; otherwise the text before the first `=` is the key.
pub open spec fn scan_line(acc: ScanModel, raw: Seq<char>) -> ScanModel {
    let line = trim(raw);
    if line.len() == 0 || line[0] == '#' {
        acc
    } else {
        let i = first_index_of(line, '=');
        if i >= line.len() {
            acc
        } else {
            apply_key(acc, trim(line.take(i)), unquoted(line.skip(i + 1)))
        }
    }
}

/// The lines applied in order.
pub open spec fn scan_lines(acc: ScanModel, lines: Seq<Seq<char>>) -> ScanModel
    decreases lines.len(),
{
    if lines.len() == 0 {
        acc
    } else {
        scan_lines(scan_line(acc, lines[0]), lines.drop_first())
    }
}

/// A theme file read from the fallback palette on. Its lines are the pieces
/// between newlines; a final empty piece, which `str::lines` leaves out, is a
/// blank line and changes nothing.
pub open spec fn scan_text(text: Seq<char>, dark_hint: bool) -> ScanModel {
    scan_lines(
        ScanModel {
            palette: fallback_model(dark_hint),
            mode: Seq::empty(),
            saw_surface: false,
            saw_muted: false,
        },
        split_on(text, '\n'),
    )
}

/// Surface and muted colors filled in from background and foreground,
/// where the theme did not give them and both base colors parse.
pub open spec fn derive_missing_model(p: PaletteModel, saw_surface: bool, saw_muted: bool) -> PaletteModel {
    match (hex_color(p.background), hex_color(p.foreground)) {
        (Some(bg), Some(fg)) => PaletteModel {
            surface: if saw_surface { p.surface } else { hex_string(mix_color(bg, fg, 12)) },
            muted: if saw_muted { p.muted } else { hex_string(mix_color(fg, bg, 40)) },
            ..p
        },
        _ => p,
    }
}

/// Whether the theme is dark: `mode` decides when it says `dark` or `light`;
/// otherwise the background's luminance does, and without a parsable
/// background the hint does.
pub open spec fn theme_is_dark(s: ScanModel) -> bool {
    if s.mode == "dark"@ {
        true
    } else if s.mode == "light"@ {
        false
    } else {
        match hex_color(s.palette.background) {
            Some(c) => is_dark_color(c),
            None => s.palette.dark,
        }
    }
}

/// The palette that a theme file's text gives.
pub open spec fn text_palette(text: Seq<char>, dark_hint: bool) -> PaletteModel {
    let s = scan_text(text, dark_hint);
    derive_missing_model(
        PaletteModel { dark: theme_is_dark(s), ..s.palette },
        s.saw_surface,
        s.saw_muted,
    )
}

/// Applying lines one more line at a time.
proof fn lemma_scan_lines_push(acc: ScanModel, lines: Seq<Seq<char>>, l: Seq<char>)
    ensures
        scan_lines(acc, lines.push(l)) == scan_line(scan_lines(acc, lines), l),
    decreases lines.len(),
{
    if lines.len() == 0 {
        assert(lines.push(l).drop_first() =~= Seq::<Seq<char>>::empty());
        assert(lines.push(l)[0] == l);
        assert(scan_lines(scan_line(acc, l), Seq::<Seq<char>>::empty()) == scan_line(acc, l));
    } else {
        assert(lines.push(l).drop_first() =~= lines.drop_first().push(l));
        assert(lines.push(l)[0] == lines[0]);
        lemma_scan_lines_push(scan_line(acc, lines[0]), lines.drop_first(), l);
    }
}

/// Whether `key` can stand as written at the start of a `key=value` line:
/// not empty, not starting with `#`, without `=` or a newline, and with no
/// whitespace at either end.
pub open spec fn is_plain_key(key: Seq<char>) -> bool {
    &&& key.len() > 0
    &&& key[0] != '#'
    &&& !is_ws(key[0])
    &&& !is_ws(key.last())
    &&& !has_char(key, '=')
    &&& !has_char(key, '\n')
}

/// A `key=value` line applies the pair, the value unquoted.
proof fn lemma_scan_pair_line(acc: ScanModel, key: Seq<char>, value: Seq<char>)
    requires
        is_plain_key(key),
    ensures
        scan_line(acc, key + seq!['='] + value) == apply_key(acc, key, unquoted(value)),
{
    let a = key + seq!['='];
    let raw = key + seq!['='] + value;
    assert(raw =~= a + value);
    assert(raw[0] == key[0]);
    lemma_trim_start_at(raw, 0);
    assert(raw.subrange(0, raw.len() as int) =~= raw);
    assert(a.last() == '=');
    lemma_trim_end_after(a, value);
    let line = a + trim_end(value);
    assert(trim(raw) == line);
    assert(line[0] == key[0]);
    assert forall|k: int| 0 <= k < key.len() implies line[k] != '=' by {
        assert(line[k] == key[k]);
        if key[k] == '=' {
            assert(has_char(key, '='));
        }
    }
    assert(line[key.len() as int] == '=');
    lemma_first_index_unique(line, '=', key.len() as int);
    assert(line.take(key.len() as int) =~= key);
    assert(line.skip(key.len() as int + 1) =~= trim_end(value));
    lemma_trim_start_at(key, 0);
    assert(key.subrange(0, key.len() as int) =~= key);
    lemma_trim_end_at(key, key.len() as int);
    assert(trim(key) == key);
    lemma_trim_of_trim_end(value);
}

/// A theme text whose last line is `key=value`: the scan of the lines
/// before, then that pair applied.
proof fn lemma_scan_last_pair(prefix: Seq<char>, key: Seq<char>, value: Seq<char>, dark_hint: bool)
    requires
        is_plain_key(key),
        !has_char(value, '\n'),
    ensures
        scan_text(prefix + seq!['\n'] + (key + seq!['='] + value), dark_hint) == apply_key(
            scan_text(prefix, dark_hint),
            key,
            unquoted(value),
        ),
{
    let l = key + seq!['='] + value;
    assert forall|k: int| 0 <= k < l.len() implies l[k] != '\n' by {
        if k < key.len() {
            assert(l[k] == key[k]);
            if key[k] == '\n' {
                assert(has_char(key, '\n'));
            }
        } else if k > key.len() {
            assert(l[k] == value[k - key.len() - 1]);
            if value[k - key.len() - 1] == '\n' {
                assert(has_char(value, '\n'));
            }
        }
    }
    assert(!has_char(l, '\n'));
    lemma_split_on_last(prefix, '\n', l);
    let acc = ScanModel {
        palette: fallback_model(dark_hint),
        mode: Seq::empty(),
        saw_surface: false,
        saw_muted: false,
    };
    lemma_scan_lines_push(acc, split_on(prefix, '\n'), l);
    lemma_scan_pair_line(scan_text(prefix, dark_hint), key, value);
}

/// The last line of a theme file, `key=value`, decides the color its key
/// names, whatever came before: `background` or `COLOR_BASE` the
/// background, `foreground` or `COLOR_TEXT` the foreground, `accent` or
/// `COLOR_PRIMARY` the accent, `selection` or `COLOR_SURFACE` the
/// selection, `lighter_background` the surface and `muted`,
/// `dark_foreground` or `COLOR_SUBTEXT` the muted color, each set to the
/// value unquoted and, for surface and muted, not derived; `mode` set to
/// `dark` or `light` decides the darkness.
pub proof fn lemma_last_line_decides(prefix: Seq<char>, key: Seq<char>, value: Seq<char>, dark_hint: bool)
    requires
        !has_char(value, '\n'),
    ensures
        ({
            let p = text_palette(prefix + seq!['\n'] + (key + seq!['='] + value), dark_hint);
            let v = unquoted(value);
            &&& (key == "background"@ || key == "COLOR_BASE"@) ==> p.background == v
            &&& (key == "foreground"@ || key == "COLOR_TEXT"@) ==> p.foreground == v
            &&& (key == "accent"@ || key == "COLOR_PRIMARY"@) ==> p.accent == v
            &&& (key == "selection"@ || key == "COLOR_SURFACE"@) ==> p.selection == v
            &&& key == "lighter_background"@ ==> p.surface == v
            &&& (key == "muted"@ || key == "dark_foreground"@ || key == "COLOR_SUBTEXT"@) ==> p.muted
                == v
            &&& (key == "mode"@ && v == "dark"@) ==> p.dark
            &&& (key == "mode"@ && v == "light"@) ==> !p.dark
        }),
{
    lemma_theme_keys();
    if key == "background"@ || key == "COLOR_BASE"@ || key == "foreground"@ || key == "COLOR_TEXT"@
        || key == "accent"@ || key == "COLOR_PRIMARY"@ || key == "selection"@ || key
        == "COLOR_SURFACE"@ || key == "lighter_background"@ || key == "muted"@ || key
        == "dark_foreground"@ || key == "COLOR_SUBTEXT"@ || key == "mode"@ {
        lemma_scan_last_pair(prefix, key, value, dark_hint);
        let text = prefix + seq!['\n'] + (key + seq!['='] + value);
        lemma_theme_values_kept(text, dark_hint);
        lemma_mode_decides(text, dark_hint);
    }
}

/// Blank lines, `#` comments and lines without `=` leave the palette as
/// the lines before made it.
pub proof fn lemma_ignored_line(prefix: Seq<char>, line: Seq<char>, dark_hint: bool)
    requires
        !has_char(line, '\n'),
        trim(line).len() == 0 || trim(line)[0] == '#' || !has_char(line, '='),
    ensures
        text_palette(prefix + seq!['\n'] + line, dark_hint) == text_palette(prefix, dark_hint),
{
    lemma_split_on_last(prefix, '\n', line);
    let acc = ScanModel {
        palette: fallback_model(dark_hint),
        mode: Seq::empty(),
        saw_surface: false,
        saw_muted: false,
    };
    lemma_scan_lines_push(acc, split_on(prefix, '\n'), line);
    let t = trim(line);
    if !(t.len() == 0 || t[0] == '#') {
        lemma_trim_start_cut(line);
        let u = trim_start(line);
        lemma_trim_end_cut(u);
        let i = first_index_of(t, '=');
        lemma_first_index_of(t, '=');
        if i < t.len() {
            let a = line.len() - u.len();
            assert(t[i] == u[i]);
            assert(u[i] == line[a + i]);
            assert(has_char(line, '='));
        }
    }
    assert(scan_text(prefix + seq!['\n'] + line, dark_hint) == scan_text(prefix, dark_hint));
}

/// A value wrapped in a pair of double or single quotes stands for what is
/// inside them; a value with no whitespace at either end and no such pair
/// is taken as written.
pub proof fn lemma_unquoted(inner: Seq<char>, v: Seq<char>)
    ensures
        unquoted(seq!['"'] + inner + seq!['"']) == inner,
        unquoted(seq!['\''] + inner + seq!['\'']) == inner,
        v.len() > 0 && !is_ws(v[0]) && !is_ws(v.last()) && !(v.len() >= 2 && ((v[0] == '"'
            && v.last() == '"') || (v[0] == '\'' && v.last() == '\''))) ==> unquoted(v) == v,
{
    lemma_trim_whole(seq!['"'] + inner + seq!['"']);
    assert((seq!['"'] + inner + seq!['"']).subrange(1, inner.len() as int + 1) =~= inner);
    lemma_trim_whole(seq!['\''] + inner + seq!['\'']);
    assert((seq!['\''] + inner + seq!['\'']).subrange(1, inner.len() as int + 1) =~= inner);
    if v.len() > 0 && !is_ws(v[0]) && !is_ws(v.last()) {
        lemma_trim_whole(v);
    }
}

/// A text with no whitespace at either end is its own trim.
proof fn lemma_trim_whole(v: Seq<char>)
    requires
        v.len() > 0,
        !is_ws(v[0]),
        !is_ws(v.last()),
    ensures
        trim(v) == v,
{
    lemma_trim_start_at(v, 0);
    assert(v.subrange(0, v.len() as int) =~= v);
    lemma_trim_end_at(v, v.len() as int);
}

/// Whether `c` may stand in a theme key: an ASCII letter or `_`.
pub open spec fn is_key_char(c: char) -> bool {
    ('a' <= c && c <= 'z') || ('A' <= c && c <= 'Z') || c == '_'
}

/// Whether every character of `s` may stand in a theme key.
pub open spec fn is_key_word(s: Seq<char>) -> bool
    decreases s.len(),
{
    s.len() == 0 || (is_key_char(s[0]) && is_key_word(s.drop_first()))
}

proof fn lemma_key_word_is_plain(key: Seq<char>)
    requires
        key.len() > 0,
        is_key_word(key),
    ensures
        is_plain_key(key),
{
    lemma_key_word_chars(key);
}

proof fn lemma_key_word_chars(s: Seq<char>)
    requires
        is_key_word(s),
    ensures
        forall|k: int| 0 <= k < s.len() ==> is_key_char(#[trigger] s[k]),
    decreases s.len(),
{
    if s.len() > 0 {
        lemma_key_word_chars(s.drop_first());
        assert forall|k: int| 0 <= k < s.len() implies is_key_char(#[trigger] s[k]) by {
            if k > 0 {
                assert(s[k] == s.drop_first()[k - 1]);
            }
        }
    }
}

/// The keys a theme file may set: each plain, and which of them differ
/// where.
proof fn lemma_theme_keys()
    ensures
        is_plain_key("mode"@) && "mode"@.len() == 4,
        is_plain_key("background"@) && "background"@.len() == 10 && "background"@[0] == 'b',
        is_plain_key("COLOR_BASE"@) && "COLOR_BASE"@.len() == 10 && "COLOR_BASE"@[0] == 'C'
            && "COLOR_BASE"@[6] == 'B',
        is_plain_key("foreground"@) && "foreground"@.len() == 10 && "foreground"@[0] == 'f',
        is_plain_key("COLOR_TEXT"@) && "COLOR_TEXT"@.len() == 10 && "COLOR_TEXT"@[0] == 'C'
            && "COLOR_TEXT"@[6] == 'T',
        is_plain_key("accent"@) && "accent"@.len() == 6,
        is_plain_key("COLOR_PRIMARY"@) && "COLOR_PRIMARY"@.len() == 13 && "COLOR_PRIMARY"@[6] == 'P',
        is_plain_key("selection"@) && "selection"@.len() == 9,
        is_plain_key("COLOR_SURFACE"@) && "COLOR_SURFACE"@.len() == 13 && "COLOR_SURFACE"@[6] == 'S'
            && "COLOR_SURFACE"@[8] == 'R',
        is_plain_key("lighter_background"@) && "lighter_background"@.len() == 18,
        is_plain_key("muted"@) && "muted"@.len() == 5,
        is_plain_key("dark_foreground"@) && "dark_foreground"@.len() == 15,
        is_plain_key("COLOR_SUBTEXT"@) && "COLOR_SUBTEXT"@.len() == 13 && "COLOR_SUBTEXT"@[6] == 'S'
            && "COLOR_SUBTEXT"@[8] == 'B',
{
    reveal_strlit("mode");
    reveal_strlit("background");
    reveal_strlit("COLOR_BASE");
    reveal_strlit("foreground");
    reveal_strlit("COLOR_TEXT");
    reveal_strlit("accent");
    reveal_strlit("COLOR_PRIMARY");
    reveal_strlit("selection");
    reveal_strlit("COLOR_SURFACE");
    reveal_strlit("lighter_background");
    reveal_strlit("muted");
    reveal_strlit("dark_foreground");
    reveal_strlit("COLOR_SUBTEXT");
    reveal_with_fuel(is_key_word, 19);
    lemma_key_word_is_plain("mode"@);
    lemma_key_word_is_plain("background"@);
    lemma_key_word_is_plain("COLOR_BASE"@);
    lemma_key_word_is_plain("foreground"@);
    lemma_key_word_is_plain("COLOR_TEXT"@);
    lemma_key_word_is_plain("accent"@);
    lemma_key_word_is_plain("COLOR_PRIMARY"@);
    lemma_key_word_is_plain("selection"@);
    lemma_key_word_is_plain("COLOR_SURFACE"@);
    lemma_key_word_is_plain("lighter_background"@);
    lemma_key_word_is_plain("muted"@);
    lemma_key_word_is_plain("dark_foreground"@);
    lemma_key_word_is_plain("COLOR_SUBTEXT"@);
}

/// Whether reading the theme text would cut a multi-byte character while
/// parsing its background or foreground color.
pub open spec fn text_palette_panics(text: Seq<char>, dark_hint: bool) -> bool {
    let p = scan_text(text, dark_hint).palette;
    hex_parse_panics(p.background) || hex_parse_panics(p.foreground)
}

struct Scan {
    palette: OmarchyPalette,
    mode: Vec<char>,
    saw_surface: bool,
    saw_muted: bool,
}

impl Scan {
    spec fn model(&self) -> ScanModel {
        ScanModel {
            palette: self.palette@,
            mode: self.mode@,
            saw_surface: self.saw_surface,
            saw_muted: self.saw_muted,
        }
    }
}

/// `value` trimmed and, when wrapped in a matching pair of quotes, unwrapped.
fn unquote(value: &[char]) -> (r: Vec<char>)
    ensures
        r@ == unquoted(value@),
{
    let v = trim_chars(value);
    let n = v.len();
    if n >= 2 && ((v[0] == '"' && v[n - 1] == '"') || (v[0] == '\'' && v[n - 1] == '\'')) {
        sub_chars(&v, 1, n - 1)
    } else {
        v
    }
}

fn apply_pair(scan: &mut Scan, key: &[char], value: &[char])
    ensures
        final(scan).model() == apply_key(old(scan).model(), key@, value@),
{
    if chars_eq_str(key, "mode") {
        scan.mode = sub_chars(value, 0, value.len());
        assert(value@.subrange(0, value@.len() as int) =~= value@);
    } else if chars_eq_str(key, "background") || chars_eq_str(key, "COLOR_BASE") {
        scan.palette.background = string_of(value);
    } else if chars_eq_str(key, "foreground") || chars_eq_str(key, "COLOR_TEXT") {
        scan.palette.foreground = string_of(value);
    } else if chars_eq_str(key, "accent") || chars_eq_str(key, "COLOR_PRIMARY") {
        scan.palette.accent = string_of(value);
    } else if chars_eq_str(key, "selection") || chars_eq_str(key, "COLOR_SURFACE") {
        scan.palette.selection = string_of(value);
    } else if chars_eq_str(key, "lighter_background") {
        scan.palette.surface = string_of(value);
        scan.saw_surface = true;
    } else if chars_eq_str(key, "muted") || chars_eq_str(key, "dark_foreground") || chars_eq_str(
        key,
        "COLOR_SUBTEXT",
    ) {
        scan.palette.muted = string_of(value);
        scan.saw_muted = true;
    }
}

fn apply_line(scan: &mut Scan, raw: &[char])
    ensures
        final(scan).model() == scan_line(old(scan).model(), raw@),
{
    let line = trim_chars(raw);
    if line.len() == 0 || line[0] == '#' {
        return;
    }
    let i = find_char(&line, '=');
    if i >= line.len() {
        return;
    }
    let key = trim_chars(&sub_chars(&line, 0, i));
    let value = unquote(&sub_chars(&line, i + 1, line.len()));
    proof {
        assert(line@.subrange(0, i as int) =~= line@.take(i as int));
        assert(line@.subrange(i + 1, line@.len() as int) =~= line@.skip(i + 1));
    }
    apply_pair(scan, &key, &value);
}

/// Reads a theme file's lines into a scan, from the fallback palette on.
fn scan_theme(text: &str, dark_hint: bool) -> (scan: Scan)
    ensures
        scan.model() == scan_text(text@, dark_hint),
{
    let t = chars_of(text);
    let mut scan = Scan {
        palette: OmarchyPalette::fallback(dark_hint),
        mode: Vec::new(),
        saw_surface: false,
        saw_muted: false,
    };
    let ghost goal = scan_text(text@, dark_hint);
    let mut pos: usize = 0;
    proof {
        assert(t@.skip(0) =~= t@);
    }
    loop
        invariant_except_break
            scan_lines(scan.model(), split_on(t@.skip(pos as int), '\n')) == goal,
        invariant
            t@ == text@,
            pos <= t@.len(),
            goal == scan_text(text@, dark_hint),
        ensures
            scan.model() == goal,
        decreases t@.len() - pos,
    {
        let e = find_char_from(&t, '\n', pos);
        let line = sub_chars(&t, pos, e);
        let ghost rest = t@.skip(pos as int);
        let ghost before = scan.model();
        proof {
            crate::text::lemma_first_index_of(rest, '\n');
            assert(line@ =~= rest.take(e - pos));
        }
        apply_line(&mut scan, &line);
        if e >= t.len() {
            proof {
                assert(rest.take(e - pos) =~= rest);
                let pieces = split_on(rest, '\n');
                assert(pieces == seq![rest]);
                assert(pieces.drop_first() =~= Seq::<Seq<char>>::empty());
                assert(scan_lines(before, pieces) == scan_lines(
                    scan_line(before, rest),
                    Seq::<Seq<char>>::empty(),
                ));
            }
            break;
        }
        proof {
            let i = e - pos;
            let pieces = split_on(rest, '\n');
            assert(rest.skip(i + 1) =~= t@.skip(e + 1));
            assert(pieces == seq![rest.take(i)] + split_on(rest.skip(i + 1), '\n'));
            assert(pieces[0] == rest.take(i));
            assert(pieces.drop_first() =~= split_on(t@.skip(e + 1), '\n'));
        }
        pos = e + 1;
    }
    scan
}

/// Whether reading `text` as a theme would cut a multi-byte character
/// while parsing its background or foreground color.
pub fn colors_text_panics(text: &str, dark_hint: bool) -> (r: bool)
    ensures
        r == text_palette_panics(text@, dark_hint),
{
    let scan = scan_theme(text, dark_hint);
    let bg = chars_of(scan.palette.background.as_str());
    let fg = chars_of(scan.palette.foreground.as_str());
    let b = match hex_outcome_of(&bg) {
        HexOutcome::Panic => true,
        _ => false,
    };
    let f = match hex_outcome_of(&fg) {
        HexOutcome::Panic => true,
        _ => false,
    };
    b || f
}

/// What was found at one candidate theme path.
#[derive(Clone, Debug)]
pub enum ThemeFile {
    /// No file is there.
    Missing,
    /// A file is there but could not be read as text.
    Unreadable,
    /// The file's text.
    Text(String),
}

/// Whether `files[i]` is the first candidate where a file exists.
pub open spec fn is_first_found(files: Seq<ThemeFile>, i: int) -> bool {
    &&& 0 <= i < files.len()
    &&& !(files[i] is Missing)
    &&& forall|j: int| 0 <= j < i ==> #[trigger] files[j] is Missing
}

/// Whether no candidate holds a file.
pub open spec fn none_found(files: Seq<ThemeFile>) -> bool {
    forall|j: int| 0 <= j < files.len() ==> #[trigger] files[j] is Missing
}

/// The palette that an existing theme file gives: that of its text, or the
/// built-in one when it could not be read.
pub open spec fn found_palette(f: ThemeFile, dark_hint: bool) -> PaletteModel {
    match f {
        ThemeFile::Text(t) => text_palette(t@, dark_hint),
        _ => fallback_model(dark_hint),
    }
}

/// Whether reading the palette out of the theme file `f` would panic.
pub open spec fn found_panics(f: ThemeFile, dark_hint: bool) -> bool {
    f matches ThemeFile::Text(t) && text_palette_panics(t@, dark_hint)
}

impl OmarchyPalette {
    /// The built-in palette for a dark or a light desktop.
    pub fn fallback(dark: bool) -> (p: Self)
        ensures
            p@ == fallback_model(dark),
    {
        if dark {
            Self {
                dark: true,
                background: String::from_str("#101010"),
                foreground: String::from_str("#eeeeee"),
                accent: String::from_str("#5584aa"),
                selection: String::from_str("#186a9a"),
                surface: String::from_str("#181818"),
                muted: String::from_str("#909191"),
            }
        } else {
            Self {
                dark: false,
                background: String::from_str("#ffffff"),
                foreground: String::from_str("#222324"),
                accent: String::from_str("#2077b2"),
                selection: String::from_str("#2077b2"),
                surface: String::from_str("#f2f2f2"),
                muted: String::from_str("#6b6f75"),
            }
        }
    }

    /// The palette of the first candidate theme file that exists, or the
    /// built-in palette when none does or the one found could not be read.
    /// `files[i]` is what was found at the `i`-th path of
    /// `colors_candidates`; what follows the first file found is never
    /// looked at.
    pub fn load(dark_hint: bool, files: &[ThemeFile]) -> (p: Self)
        requires
            forall|i: int| is_first_found(files@, i) ==> !found_panics(files@[i], dark_hint),
        ensures
            forall|i: int| is_first_found(files@, i) ==> p@ == found_palette(files@[i], dark_hint),
            none_found(files@) ==> p@ == fallback_model(dark_hint),
    {
        match first_found(files) {
            Some(k) => match &files[k] {
                ThemeFile::Text(text) => Self::from_colors_text(text.as_str(), dark_hint),
                _ => Self::fallback(dark_hint),
            },
            None => Self::fallback(dark_hint),
        }
    }

    /// Whether `load` on these files would panic, as reading a colour out
    /// of the first file found at a place that is not a character boundary
    /// does.
    pub fn load_panics(dark_hint: bool, files: &[ThemeFile]) -> (r: bool)
        ensures
            r == exists|i: int| is_first_found(files@, i) && found_panics(files@[i], dark_hint),
    {
        match first_found(files) {
            Some(k) => match &files[k] {
                ThemeFile::Text(text) => colors_text_panics(text.as_str(), dark_hint),
                _ => false,
            },
            None => false,
        }
    }

    /// The palette that the text of a `colors.toml` or `theme.conf` gives.
    pub fn from_colors_text(text: &str, dark_hint: bool) -> (p: Self)
        requires
            !text_palette_panics(text@, dark_hint),
        ensures
            p@ == text_palette(text@, dark_hint),
    {
        let scan = scan_theme(text, dark_hint);
        let mut palette = scan.palette;
        if chars_eq_str(&scan.mode, "dark") {
            palette.dark = true;
        } else if chars_eq_str(&scan.mode, "light") {
            palette.dark = false;
        } else if let Some(bg) = parse_hex_color(palette.background.as_str()) {
            palette.dark = bg.is_dark();
        }
        palette.derive_missing(scan.saw_surface, scan.saw_muted);
        palette
    }

    /// Fill surface and muted from the base colors when the theme file does
    /// not provide them, so panels stay in the theme's own tonal family.
    fn derive_missing(&mut self, saw_surface: bool, saw_muted: bool)
        requires
            !hex_parse_panics(old(self).background@),
            !hex_parse_panics(old(self).foreground@),
        ensures
            final(self)@ == derive_missing_model(old(self)@, saw_surface, saw_muted),
    {
        let bg = parse_hex_color(self.background.as_str());
        let fg = parse_hex_color(self.foreground.as_str());
        match (bg, fg) {
            (Some(bg), Some(fg)) => {
                if !saw_surface {
                    // Surface: nudge the background 12% toward the foreground.
                    self.surface = mix_hex(&bg, &fg, 12);
                }
                if !saw_muted {
                    // Muted text: foreground pulled 40% back toward the background.
                    self.muted = mix_hex(&fg, &bg, 40);
                }
            },
            _ => {},
        }
    }

    /// Whether two palettes have the same colors and mode.
    pub fn same_as(&self, other: &Self) -> (r: bool)
        ensures
            r == (self@ == other@),
    {
        self.dark == other.dark && self.background == other.background && self.foreground
            == other.foreground && self.accent == other.accent && self.selection == other.selection
            && self.surface == other.surface && self.muted == other.muted
    }
}

/// What a theme file gives is kept: its background, foreground, accent and
/// selection as written, and its surface and muted colors when it has them.
/// Only the two missing panel colors are ever derived.
pub proof fn lemma_theme_values_kept(text: Seq<char>, dark_hint: bool)
    ensures
        ({
            let s = scan_text(text, dark_hint);
            let p = text_palette(text, dark_hint);
            &&& p.background == s.palette.background
            &&& p.foreground == s.palette.foreground
            &&& p.accent == s.palette.accent
            &&& p.selection == s.palette.selection
            &&& (s.saw_surface ==> p.surface == s.palette.surface)
            &&& (s.saw_muted ==> p.muted == s.palette.muted)
        }),
{
}

/// A theme without `lighter_background` or `muted` gets them from its
/// background and foreground, as colors that parse back to the blends:
/// the surface is the background moved 12% toward the foreground, the muted
/// color the foreground moved 40% toward the background.
pub proof fn lemma_missing_colors_derived(text: Seq<char>, dark_hint: bool)
    ensures
        ({
            let s = scan_text(text, dark_hint);
            let p = text_palette(text, dark_hint);
            match (hex_color(s.palette.background), hex_color(s.palette.foreground)) {
                (Some(bg), Some(fg)) => {
                    &&& (!s.saw_surface ==> hex_color(p.surface) == Some(mix_color(bg, fg, 12)))
                    &&& (!s.saw_muted ==> hex_color(p.muted) == Some(mix_color(fg, bg, 40)))
                },
                _ => p.surface == s.palette.surface && p.muted == s.palette.muted,
            }
        }),
{
    let s = scan_text(text, dark_hint);
    match (hex_color(s.palette.background), hex_color(s.palette.foreground)) {
        (Some(bg), Some(fg)) => {
            super::color::lemma_hex_roundtrip(mix_color(bg, fg, 12));
            super::color::lemma_hex_roundtrip(mix_color(fg, bg, 40));
        },
        _ => {},
    }
}

/// `mode = dark` and `mode = light` decide the theme's darkness whatever its
/// background.
pub proof fn lemma_mode_decides(text: Seq<char>, dark_hint: bool)
    ensures
        scan_text(text, dark_hint).mode == "dark"@ ==> text_palette(text, dark_hint).dark,
        scan_text(text, dark_hint).mode == "light"@ ==> !text_palette(text, dark_hint).dark,
{
    reveal_strlit("dark");
    reveal_strlit("light");
    assert("light"@.len() != "dark"@.len());
}

/// The built-in palettes parse and make nothing panic.
pub proof fn lemma_fallback_colors_parse(dark: bool)
    ensures
        !hex_parse_panics(fallback_model(dark).background),
        !hex_parse_panics(fallback_model(dark).foreground),
        hex_color(fallback_model(dark).background) is Some,
        hex_color(fallback_model(dark).foreground) is Some,
{
    let (b, f) = if dark {
        (RgbaColor { r: 0x10, g: 0x10, b: 0x10 }, RgbaColor { r: 0xee, g: 0xee, b: 0xee })
    } else {
        (RgbaColor { r: 0xff, g: 0xff, b: 0xff }, RgbaColor { r: 0x22, g: 0x23, b: 0x24 })
    };
    super::color::lemma_hex_roundtrip(b);
    super::color::lemma_hex_roundtrip(f);
    if dark {
        reveal_strlit("#101010");
        reveal_strlit("#eeeeee");
        assert(hex_string(b) =~= "#101010"@);
        assert(hex_string(f) =~= "#eeeeee"@);
    } else {
        reveal_strlit("#ffffff");
        reveal_strlit("#222324");
        assert(hex_string(b) =~= "#ffffff"@);
        assert(hex_string(f) =~= "#222324"@);
    }
}

/// The first candidate where a file exists.
fn first_found(files: &[ThemeFile]) -> (k: Option<usize>)
    ensures
        match k {
            Some(i) => is_first_found(files@, i as int),
            None => none_found(files@),
        },
{
    let mut k: usize = 0;
    while k < files.len()
        invariant
            0 <= k <= files@.len(),
            forall|j: int| 0 <= j < k ==> #[trigger] files@[j] is Missing,
        decreases files@.len() - k,
    {
        match &files[k] {
            ThemeFile::Missing => {},
            _ => return Some(k),
        }
        k = k + 1;
    }
    None
}

/// The numbers the window paints with: each color of the palette as a
/// packed `0xRRGGBB`, where it parses.
pub struct PaletteRgb {
    pub background: Option<u32>,
    pub foreground: Option<u32>,
    pub accent: Option<u32>,
    pub surface: Option<u32>,
    pub muted: Option<u32>,
}

impl OmarchyPalette {
    /// The palette's colors as packed numbers for painting.
    pub fn rgb(&self) -> (c: PaletteRgb)
        ensures
            c.background == rgb_value(self.background@),
            c.foreground == rgb_value(self.foreground@),
            c.accent == rgb_value(self.accent@),
            c.surface == rgb_value(self.surface@),
            c.muted == rgb_value(self.muted@),
    {
        PaletteRgb {
            background: rgb_of(self.background.as_str()),
            foreground: rgb_of(self.foreground.as_str()),
            accent: rgb_of(self.accent.as_str()),
            surface: rgb_of(self.surface.as_str()),
            muted: rgb_of(self.muted.as_str()),
        }
    }

    /// The palette to switch to after reloading the theme: the reloaded one
    /// when it differs from this one, none when nothing changed.
    pub fn changed_to(&self, reloaded: Self) -> (p: Option<Self>)
        ensures
            match p {
                Some(q) => q@ == reloaded@ && self@ != reloaded@,
                None => self@ == reloaded@,
            },
    {
        if self.same_as(&reloaded) {
            None
        } else {
            Some(reloaded)
        }
    }
}

} // verus!
