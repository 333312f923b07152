use pifile::theme::color::{format_hex, hex_outcome_of, mix, mix_hex, rgb_of, HexOutcome};
use pifile::theme::palette::{OmarchyPalette, ThemeFile};
use pifile::theme::sources::{
    colors_candidates, omarchy_colors_path_in, omarchy_watch_paths_in,
    scheme_is_dark,
};
use pifile::theme::{parse_hex_color, RgbaColor};

#[test]
fn loads_omarchy_theme() {
    let text = "mode = \"light\"\naccent = \"#112233\"\nselection = \"#445566\"\nbackground = \"#fefefe\"\nforeground = \"#101010\"\n";
    let palette = OmarchyPalette::from_colors_text(text, true);
    assert_eq!(palette.background, "#fefefe");
    assert_eq!(palette.foreground, "#101010");
    assert_eq!(palette.accent, "#112233");
    assert_eq!(palette.selection, "#445566");
    // No surface/muted keys in the file: derived from background/foreground.
    assert_eq!(palette.surface, "#e1e1e1");
    assert_eq!(palette.muted, "#6f6f6f");
    assert!(!palette.dark);
}

#[test]
fn loads_surface_and_muted_keys() {
    let text = "mode = \"dark\"\nbackground = \"#222822\"\nforeground = \"#e8d5b7\"\naccent = \"#4ade80\"\nselection = \"#e8d5b7\"\nlighter_background = \"#2d3830\"\nmuted = \"#7f897d\"\n";
    let palette = OmarchyPalette::from_colors_text(text, false);
    assert_eq!(palette.surface, "#2d3830");
    assert_eq!(palette.muted, "#7f897d");
    assert!(palette.dark);
}

#[test]
fn loads_theme_conf() {
    let text = "mode=dark\nCOLOR_BASE=#101010\nCOLOR_TEXT=#eeeeee\nCOLOR_PRIMARY=#5584aa\nCOLOR_SURFACE=#186a9a\n";
    let palette = OmarchyPalette::from_colors_text(text, false);
    assert!(palette.dark);
    assert_eq!(palette.background, "#101010");
    assert_eq!(palette.foreground, "#eeeeee");
    assert_eq!(palette.accent, "#5584aa");
    assert_eq!(palette.selection, "#186a9a");
}

#[test]
fn fallback_palettes() {
    let dark = OmarchyPalette::fallback(true);
    assert!(dark.dark);
    assert_eq!(dark.background, "#101010");
    assert_eq!(dark.foreground, "#eeeeee");
    assert_eq!(dark.accent, "#5584aa");
    assert_eq!(dark.selection, "#186a9a");
    assert_eq!(dark.surface, "#181818");
    assert_eq!(dark.muted, "#909191");
    let light = OmarchyPalette::fallback(false);
    assert!(!light.dark);
    assert_eq!(light.background, "#ffffff");
    assert_eq!(light.foreground, "#222324");
    assert_eq!(light.accent, "#2077b2");
    assert_eq!(light.surface, "#f2f2f2");
    assert_eq!(light.muted, "#6b6f75");
}

#[test]
fn load_without_theme_file_is_fallback() {
    let p = OmarchyPalette::load(true, &[]);
    assert!(p.same_as(&OmarchyPalette::fallback(true)));
    let none = OmarchyPalette::load(false, &[ThemeFile::Missing, ThemeFile::Missing]);
    assert!(none.same_as(&OmarchyPalette::fallback(false)));
    let q = OmarchyPalette::load(false, &[ThemeFile::Text("background = #000000\n".to_string())]);
    assert_eq!(q.background, "#000000");
    assert!(q.dark);
}

#[test]
fn the_first_existing_theme_file_wins() {
    let files = [
        ThemeFile::Missing,
        ThemeFile::Text("background = #fafafa\naccent = #123456\n".to_string()),
        ThemeFile::Text("background = #000000\n".to_string()),
    ];
    assert!(!OmarchyPalette::load_panics(true, &files));
    let p = OmarchyPalette::load(true, &files);
    assert_eq!(p.background, "#fafafa");
    assert_eq!(p.accent, "#123456");
    assert!(!p.dark);
    let unreadable = [
        ThemeFile::Missing,
        ThemeFile::Unreadable,
        ThemeFile::Text("background = #000000\n".to_string()),
    ];
    let u = OmarchyPalette::load(false, &unreadable);
    assert!(u.same_as(&OmarchyPalette::fallback(false)));
    let later_bad = [
        ThemeFile::Text("background = #101010\n".to_string()),
        ThemeFile::Text("background = #é1\n".to_string()),
    ];
    assert!(!OmarchyPalette::load_panics(true, &later_bad));
    assert_eq!(OmarchyPalette::load(true, &later_bad).background, "#101010");
    let first_bad = [ThemeFile::Missing, ThemeFile::Text("background = #é1\n".to_string())];
    assert!(OmarchyPalette::load_panics(true, &first_bad));
}

#[test]
fn darkness_from_background_when_no_mode() {
    let light_bg = OmarchyPalette::from_colors_text("background=#fafafa\nforeground=#111111", true);
    assert!(!light_bg.dark);
    let dark_bg = OmarchyPalette::from_colors_text("background = '#0a0a0a'", false);
    assert!(dark_bg.dark);
    // An unparsable background leaves the hint in charge.
    let odd = OmarchyPalette::from_colors_text("background = teal", false);
    assert!(!odd.dark);
    assert_eq!(odd.background, "teal");
}

#[test]
fn comments_blank_lines_and_unknown_keys_are_ignored() {
    let text = "# a comment\n\n   \nno equals sign\nunknown = #123456\r\naccent = '#abcdef'  \r\n";
    let p = OmarchyPalette::from_colors_text(text, true);
    assert_eq!(p.accent, "#abcdef");
    assert_eq!(p.background, "#101010");
    // The value runs to the end of the line; only the first `=` splits.
    let q = OmarchyPalette::from_colors_text("selection = a=b", true);
    assert_eq!(q.selection, "a=b");
    // Unbalanced quotes stay.
    let r = OmarchyPalette::from_colors_text("accent = \"#abcdef'", true);
    assert_eq!(r.accent, "\"#abcdef'");
}

#[test]
fn derived_panel_colors_follow_the_base_colors() {
    let p = OmarchyPalette::from_colors_text("background=#000000\nforeground=#ffffff", true);
    // 12% of 255 is 30.6, 40% of the way back from 255 is 153.
    assert_eq!(p.surface, "#1f1f1f");
    assert_eq!(p.muted, "#999999");
    let q = OmarchyPalette::from_colors_text("background=#000000\nforeground=#ffffff\nmuted=#777777", true);
    assert_eq!(q.muted, "#777777");
    assert_eq!(q.surface, "#1f1f1f");
}

#[test]
fn palette_change_detection() {
    let a = OmarchyPalette::fallback(true);
    assert!(a.changed_to(OmarchyPalette::fallback(true)).is_none());
    let b = a.changed_to(OmarchyPalette::fallback(false)).unwrap();
    assert!(!b.dark);
}

#[test]
fn palette_rgb_numbers() {
    let c = OmarchyPalette::fallback(true).rgb();
    assert_eq!(c.background, Some(0x101010));
    assert_eq!(c.foreground, Some(0xeeeeee));
    assert_eq!(c.accent, Some(0x5584aa));
    assert_eq!(c.surface, Some(0x181818));
    assert_eq!(c.muted, Some(0x909191));
}

fn slicing_parse(value: &str) -> Option<(u8, u8, u8)> {
    let value = value.trim().trim_matches(|c| c == '"' || c == '\'');
    let hex = value.strip_prefix('#')?;
    let (r, g, b) = match hex.len() {
        3 => {
            let r = u8::from_str_radix(&hex[0..1].repeat(2), 16).ok()?;
            let g = u8::from_str_radix(&hex[1..2].repeat(2), 16).ok()?;
            let b = u8::from_str_radix(&hex[2..3].repeat(2), 16).ok()?;
            (r, g, b)
        }
        6 => {
            let r = u8::from_str_radix(&hex[0..2], 16).ok()?;
            let g = u8::from_str_radix(&hex[2..4], 16).ok()?;
            let b = u8::from_str_radix(&hex[4..6], 16).ok()?;
            (r, g, b)
        }
        _ => return None,
    };
    Some((r, g, b))
}

fn radix_rgb(value: &str) -> Option<u32> {
    let hex = value.trim().trim_start_matches('#');
    let expanded = if hex.len() == 3 {
        hex.chars().flat_map(|c| [c, c]).collect::<String>()
    } else {
        hex.to_string()
    };
    u32::from_str_radix(&expanded, 16).ok()
}

fn samples() -> Vec<String> {
    let pieces = [
        "", "#", "##", "#1", "#12", "#123", "#1234", "#12345", "#123456", "#1234567", "#abc",
        "#ABC", "#aBc", "#g12", "#+12", "#++1", "#+1+2+3", "#-12", "#+f+f+f", "#12+456",
        "#é", "#éé", "#ééé", "#é1", "#1é", "#€", "#1€", "#€1", "#1é1é", "#éa1", "#a1é",
        "#12é3", "#123é", "#€€", " #fff ", "\"#fff\"", "'#ffffff'", "\"'#000000'\"",
        "fff", "#ff ff", "#00ff00", "# 00ff00", "#Ff0", "#ffffffff", "##ffffff",
        "+ffffff", "#+ffffff", "#000000000", "#0000000ff", "#fffffffff", "#1234567890",
        "\t#123\n", "#12\u{a0}", "\u{2003}#123",
    ];
    let mut v: Vec<String> = pieces.iter().map(|s| s.to_string()).collect();
    let alphabet = ['0', '9', 'a', 'F', 'g', '+', '-', 'é', '€', ' ', '#'];
    for a in alphabet {
        for b in alphabet {
            for c in alphabet {
                v.push(format!("#{a}{b}{c}"));
                v.push(format!("#{a}{b}{c}{a}{b}{c}"));
                v.push(format!("{a}{b}{c}"));
            }
        }
    }
    v
}

#[test]
fn hex_parsing_matches_the_string_slicing_parser() {
    for s in samples() {
        let chars: Vec<char> = s.chars().collect();
        match hex_outcome_of(&chars) {
            HexOutcome::Panic => {
                let value = s.trim().trim_matches(|c| c == '"' || c == '\'');
                let hex = value.strip_prefix('#').unwrap();
                assert!(hex.len() == 3 || hex.len() == 6, "{s:?}");
            }
            _ => {
                let ours = parse_hex_color(&s).map(|c| (c.r, c.g, c.b));
                assert_eq!(ours, slicing_parse(&s), "{s:?}");
            }
        }
    }
}

#[test]
fn paint_numbers_match_the_radix_parser() {
    for s in samples() {
        assert_eq!(rgb_of(&s), radix_rgb(&s), "{s:?}");
    }
    assert_eq!(rgb_of("#abc"), Some(0xaabbcc));
    assert_eq!(rgb_of("##123456"), Some(0x123456));
    assert_eq!(rgb_of("#ffffffff"), Some(0xffffffff));
    assert_eq!(rgb_of("#100000000"), None);
}

#[test]
fn hex_formatting_round_trips() {
    for r in (0..=255u8).step_by(7) {
        for g in (0..=255u8).step_by(11) {
            for b in [0u8, 1, 15, 16, 128, 254, 255] {
                let c = RgbaColor { r, g, b };
                let s = format_hex(c);
                assert_eq!(s, format!("#{r:02x}{g:02x}{b:02x}"));
                assert_eq!(parse_hex_color(&s), Some(c));
            }
        }
    }
}

#[test]
fn blending_laws() {
    let a = RgbaColor { r: 10, g: 200, b: 99 };
    let b = RgbaColor { r: 250, g: 0, b: 99 };
    assert_eq!(mix(a, a, 37), a);
    assert_eq!(mix(a, b, 0), a);
    assert_eq!(mix(a, b, 100), b);
    assert_eq!(mix_hex(&a, &b, 12), "#27b063");
    for w in 0..=100u8 {
        let m = mix(a, b, w);
        assert!(a.r <= m.r && m.r <= b.r);
        assert!(b.g <= m.g && m.g <= a.g);
        assert_eq!(m.b, 99);
    }
}

#[test]
fn luminance_units() {
    assert_eq!(RgbaColor { r: 255, g: 255, b: 255 }.luminance(), 255_000);
    assert_eq!(RgbaColor { r: 0, g: 0, b: 0 }.luminance(), 0);
    assert!(RgbaColor { r: 233, g: 49, b: 255 }.is_dark());
    assert!(!RgbaColor { r: 0, g: 204, b: 68 }.is_dark());
}

#[test]
fn theme_file_candidates_in_lookup_order() {
    let c = colors_candidates(Some("/themes"), "/home/u");
    assert_eq!(c.len(), 10);
    assert_eq!(c[0], "/themes/colors.toml");
    assert_eq!(c[1], "/themes/theme.conf");
    assert_eq!(c[2], "/home/u/.local/state/omarchy/current/theme/colors.toml");
    assert_eq!(c[3], "/home/u/.local/state/omarchy/current/theme/theme.conf");
    assert_eq!(c[4], "/home/u/.config/omarchy/current/theme/colors.toml");
    assert_eq!(c[9], "/home/u/.config/pimarchy/current/theme/theme.conf");
    let d = colors_candidates(None, "/root/");
    assert_eq!(d.len(), 8);
    assert_eq!(d[0], "/root/.local/state/omarchy/current/theme/colors.toml");
    assert_eq!(omarchy_colors_path_in("/h"), "/h/.local/state/omarchy/current/theme/colors.toml");
}

#[test]
fn watched_theme_paths() {
    let w = omarchy_watch_paths_in("/home/u");
    assert_eq!(w, vec![
        "/home/u/.local/state/omarchy/current".to_string(),
        "/home/u/.local/state/omarchy/current/theme".to_string(),
        "/home/u/.local/state/omarchy/current/theme/colors.toml".to_string(),
    ]);
}

#[test]
fn desktop_color_scheme() {
    assert!(scheme_is_dark(true, "'prefer-dark'\n"));
    assert!(!scheme_is_dark(true, "'prefer-light'\n"));
    assert!(scheme_is_dark(true, "'default'\n"));
    assert!(scheme_is_dark(false, "'prefer-light'"));
}
