use pifile::fs::entry::{decimal_string, format_size, DirEntry, FileKind, FileMeta, Timestamp};
use pifile::fs::listing::{list_dir, place_candidates, places, sort_entries, start_dir, Place};
use pifile::fs::ops::{
    after_probe, mkdir_target, rename_plan, unique_candidate, NameError, Probe, RenameError,
    RenamePlan,
};
use pifile::fs::path::{extension_of, file_stem_of, join_path};
use pifile::browser::Browser;
use pifile::fs::{parent_of, validate_name, SortKey};
use pifile::icons::{PifileAssets, PlaceIcon};
use pifile::text::{chars_of, is_whitespace, string_of, trim_chars};
use std::path::PathBuf;

fn entry(name: &str, kind: FileKind, size: Option<u64>, modified: Option<(i64, u32)>) -> DirEntry {
    DirEntry {
        path: format!("/d/{name}"),
        name: name.to_string(),
        kind,
        size,
        modified: modified.map(|(secs, nanos)| Timestamp { secs, nanos }),
        hidden: name.starts_with('.'),
    }
}

fn sort_by_order(mut entries: Vec<DirEntry>, show_hidden: bool, sort: SortKey) -> Vec<String> {
    entries.retain(|e| show_hidden || !e.hidden);
    entries.sort_by(|a, b| match (a.kind == FileKind::Directory, b.kind == FileKind::Directory) {
        (true, false) => std::cmp::Ordering::Less,
        (false, true) => std::cmp::Ordering::Greater,
        _ => match sort {
            SortKey::Name => a.name.to_lowercase().cmp(&b.name.to_lowercase()),
            SortKey::Size => a.size.unwrap_or(0).cmp(&b.size.unwrap_or(0)),
            SortKey::Modified => a
                .modified
                .map(|t| (t.secs, t.nanos))
                .cmp(&b.modified.map(|t| (t.secs, t.nanos))),
        },
    });
    entries.into_iter().map(|e| e.path).collect()
}

fn sample_entries(seed: u64, n: usize) -> Vec<DirEntry> {
    let names = ["a", "B", "b", "Ä", "ä", "z", ".hidden", ".A", "10", "9", "ab", "Ab", "aB", "É", "e", "Straße", "STRASSE", "x.txt", "X.TXT"];
    let mut x = seed;
    let mut out = Vec::new();
    for i in 0..n {
        x = x.wrapping_mul(6364136223846793005).wrapping_add(1442695040888963407);
        let name = format!("{}{}", names[(x >> 33) as usize % names.len()], if (x >> 20) % 3 == 0 { String::new() } else { format!("{}", i % 4) });
        let kind = match (x >> 40) % 4 {
            0 => FileKind::Directory,
            1 => FileKind::Symlink,
            2 => FileKind::File,
            _ => FileKind::File,
        };
        let size = if kind == FileKind::File { Some((x >> 50) % 5) } else { None };
        let modified = if (x >> 45) % 5 == 0 { None } else { Some((((x >> 12) % 4) as i64 - 1, ((x >> 8) % 3) as u32)) };
        let mut e = entry(&name, kind, size, modified);
        e.path = format!("/d/{i}");
        out.push(e);
    }
    out
}

#[test]
fn listing_matches_the_stable_sort() {
    for seed in 0..300u64 {
        for sort in [SortKey::Name, SortKey::Size, SortKey::Modified] {
            for hidden in [false, true] {
                let entries = sample_entries(seed, (seed % 40) as usize);
                let ours: Vec<String> = list_dir(entries.clone(), hidden, sort).into_iter().map(|e| e.path).collect();
                assert_eq!(ours, sort_by_order(entries, hidden, sort));
            }
        }
    }
}

#[test]
fn listing_puts_directories_first_and_hides_dotfiles() {
    let entries = vec![
        entry("zeta.txt", FileKind::File, Some(3), None),
        entry(".git", FileKind::Directory, None, None),
        entry("Alpha", FileKind::Directory, None, None),
        entry("beta", FileKind::File, Some(1), None),
        entry("alpha.md", FileKind::File, Some(2), None),
    ];
    let names = |v: Vec<DirEntry>| v.into_iter().map(|e| e.name).collect::<Vec<_>>();
    assert_eq!(names(list_dir(entries.clone(), false, SortKey::Name)), vec!["Alpha", "alpha.md", "beta", "zeta.txt"]);
    assert_eq!(names(list_dir(entries.clone(), true, SortKey::Name)), vec![".git", "Alpha", "alpha.md", "beta", "zeta.txt"]);
    assert_eq!(names(list_dir(entries.clone(), false, SortKey::Size)), vec!["Alpha", "beta", "alpha.md", "zeta.txt"]);
    // Listing a listing again changes nothing.
    let once = list_dir(entries.clone(), true, SortKey::Modified);
    let again = sort_entries(once.clone(), SortKey::Modified);
    assert_eq!(names(once), names(again));
}

#[test]
fn entries_from_metadata() {
    let meta = FileMeta { is_symlink: false, is_dir: false, is_file: true, len: 2048, modified: Some(Timestamp { secs: 5, nanos: 0 }) };
    let e = DirEntry::from_meta("/home/u/.bashrc".to_string(), &meta);
    assert_eq!(e.name, ".bashrc");
    assert!(e.hidden);
    assert_eq!(e.kind, FileKind::File);
    assert_eq!(e.size, Some(2048));
    assert_eq!(e.size_label(), "2.0 K");
    assert!(!e.is_dir());
    let link = FileMeta { is_symlink: true, is_dir: true, is_file: false, len: 7, modified: None };
    let l = DirEntry::from_meta("/home/u/docs".to_string(), &link);
    assert_eq!(l.kind, FileKind::Symlink);
    assert_eq!(l.size, None);
    assert_eq!(l.size_label(), "—");
    assert_eq!(l.modified_label(), "—");
    let dir = FileMeta { is_symlink: false, is_dir: true, is_file: false, len: 4096, modified: None };
    let d = DirEntry::from_meta("/".to_string(), &dir);
    assert_eq!(d.name, "/");
    assert!(d.is_dir());
    let other = FileMeta { is_symlink: false, is_dir: false, is_file: false, len: 0, modified: None };
    assert_eq!(DirEntry::from_meta("/dev/null".to_string(), &other).kind, FileKind::Other);
    let dated = DirEntry::from_meta("/tmp/x".to_string(), &meta);
    assert_eq!(dated.modified_label().len(), 16);
}

#[test]
fn size_labels() {
    assert_eq!(format_size(0), "0 B");
    assert_eq!(format_size(1023), "1023 B");
    assert_eq!(format_size(1024), "1.0 K");
    assert_eq!(format_size(1536), "1.5 K");
    assert_eq!(format_size(1280), "1.2 K");
    assert_eq!(format_size(1048575), "1024.0 K");
    assert_eq!(format_size(5 * 1024 * 1024 * 1024), "5.0 G");
    assert_eq!(format_size(u64::MAX), "16777216.0 T");
    assert_eq!(decimal_string(0), "0");
    assert_eq!(decimal_string(1234567890), "1234567890");
}

#[test]
fn joining_paths_like_pathbuf() {
    for base in ["", "/", "/home/u", "/home/u/", "rel", "a//"] {
        for rel in ["x", "x/y", "", "/abs", ".local/state"] {
            let ours = join_path(base, rel);
            let std = PathBuf::from(base).join(rel);
            assert_eq!(ours, std.to_string_lossy(), "{base:?} {rel:?}");
        }
    }
}

#[test]
fn path_questions() {
    assert_eq!(parent_of("/foo/bar"), Some("/foo".to_string()));
    assert_eq!(parent_of("/foo"), Some("/".to_string()));
    assert_eq!(parent_of("/"), None);
    assert_eq!(parent_of(""), None);
    assert_eq!(parent_of("foo"), Some(String::new()));
    assert_eq!(parent_of("/."), None);
    assert_eq!(parent_of("./a"), Some(".".to_string()));
    assert_eq!(parent_of("/a/b/"), Some("/a".to_string()));
    let dir = FileMeta { is_symlink: false, is_dir: true, is_file: false, len: 0, modified: None };
    assert_eq!(DirEntry::from_meta("/usr/bin/".to_string(), &dir).name, "bin");
    assert_eq!(DirEntry::from_meta("a/..".to_string(), &dir).name, "a/..");
    assert_eq!(file_stem_of("notes.tar.gz"), Some("notes.tar".to_string()));
    assert_eq!(extension_of(".bashrc"), None);
    let b = Browser::new("/a/b".to_string(), Vec::new());
    assert!(b.is_current("/a//b/"));
    assert!(!b.is_current("/a/c"));
}

#[test]
fn stems_and_extensions_match_std() {
    for p in ["a", "a.b", ".a", ".a.b", "a.", "a..b", "/x/y.tar.gz", "/x/.hidden", "/", "", "dir/", "dir/.", "..", "a/..", "é.ü", "x.y/"] {
        let std_stem = std::path::Path::new(p).file_stem().map(|s| s.to_string_lossy().into_owned());
        let std_ext = std::path::Path::new(p).extension().map(|s| s.to_string_lossy().into_owned());
        assert_eq!(file_stem_of(p), std_stem, "{p:?}");
        assert_eq!(extension_of(p), std_ext, "{p:?}");
    }
}

#[test]
fn name_checks() {
    assert_eq!(validate_name("   "), Err(NameError::Empty));
    assert_eq!(validate_name("a\0b"), Err(NameError::NotSingleComponent));
    assert_eq!(validate_name(" . "), Err(NameError::Reserved));
    assert_eq!(validate_name(" fine name "), Ok(()));
    assert_eq!(NameError::Empty.message(), "name is empty");
    assert_eq!(NameError::NotSingleComponent.message(), "name must be a single path component");
    assert_eq!(NameError::Reserved.message(), "invalid name");
}

#[test]
fn new_folder_and_rename_plans() {
    assert_eq!(mkdir_target("/home/u", "  New  "), Ok("/home/u/New".to_string()));
    assert_eq!(mkdir_target("/home/u", "a/b"), Err(NameError::NotSingleComponent));
    match rename_plan("/home/u/a.txt", " b.txt ") {
        Ok(RenamePlan::Move(d)) => assert_eq!(d, "/home/u/b.txt"),
        _ => panic!("expected a move"),
    }
    match rename_plan("/home/u/a.txt", "a.txt") {
        Ok(RenamePlan::Unchanged(d)) => assert_eq!(d, "/home/u/a.txt"),
        _ => panic!("expected no change"),
    }
    assert!(matches!(rename_plan("/", "x"), Err(RenameError::NoParent)));
    assert!(matches!(rename_plan("/a", ".."), Err(RenameError::BadName(NameError::Reserved))));
}

#[test]
fn copy_destinations() {
    assert_eq!(unique_candidate("/t", "notes.txt", 0), "/t/notes.txt");
    assert_eq!(unique_candidate("/t", "notes.txt", 1), "/t/notes (1).txt");
    assert_eq!(unique_candidate("/t", "archive.tar.gz", 12), "/t/archive.tar (12).gz");
    assert_eq!(unique_candidate("/t/", "Makefile", 3), "/t/Makefile (3)");
    assert_eq!(unique_candidate("/t", ".bashrc", 2), "/t/.bashrc (2)");
    assert_eq!(after_probe(0, false), Probe::Use(0));
    assert_eq!(after_probe(5, true), Probe::Try(6));
    assert_eq!(after_probe(999, true), Probe::Use(0));
}

#[test]
fn sidebar_places() {
    let c = place_candidates("/home/u");
    assert_eq!(c.len(), 4);
    let p: Vec<Place> = places("/home/u", &[true, false, true, false]);
    let labels: Vec<&str> = p.iter().map(|q| q.label.as_str()).collect();
    assert_eq!(labels, vec!["Home", "Documents", "Root"]);
    assert_eq!(p[1].path, "/home/u/Documents");
    assert_eq!(p[1].icon, PlaceIcon::FileText);
    assert_eq!(p[2].path, "/");
    assert_eq!(p[2].icon.path(), "icons/hard-drive.svg");
}

#[test]
fn starting_directory() {
    assert_eq!(start_dir("/home/u", true, false), Some("/home/u".to_string()));
    assert_eq!(start_dir("/home/u/file.txt", false, true), Some("/home/u".to_string()));
    assert_eq!(start_dir("/home/u/missing", false, false), None);
    assert_eq!(start_dir("/", false, true), None);
}

#[test]
fn icon_assets() {
    assert!(PifileAssets::serves("icons/house.svg"));
    assert!(!PifileAssets::serves("icons/house.png"));
    assert!(!PifileAssets::serves("fonts/a.svg"));
    assert_eq!(PlaceIcon::MonitorPlay.path(), "icons/monitor-play.svg");
}

#[test]
fn whitespace_and_trimming_match_std() {
    for u in 0..0x11_0000u32 {
        if let Some(c) = char::from_u32(u) {
            assert_eq!(is_whitespace(c), c.is_whitespace(), "{u:x}");
        }
    }
    for s in ["", "  ", " a ", "\u{3000}x\u{2029}", "\tline\r\n", "a b"] {
        let t = trim_chars(&chars_of(s));
        assert_eq!(string_of(&t), s.trim());
    }
}

fn has_minute_label_shape(s: &str) -> bool {
    let c: Vec<char> = s.chars().collect();
    let n = c.len();
    if n < 16 {
        return false;
    }
    let digit = |i: usize| c[i].is_ascii_digit();
    let year = &c[..n - 12];
    let year_digits = if year[0] == '+' || year[0] == '-' { &year[1..] } else { year };
    year_digits.len() >= 4
        && year_digits.iter().all(|d| d.is_ascii_digit())
        && c[n - 12] == '-'
        && c[n - 9] == '-'
        && c[n - 6] == ' '
        && c[n - 3] == ':'
        && [11, 10, 8, 7, 5, 4, 2, 1].iter().all(|k| digit(n - k))
}

#[test]
fn modified_labels_cover_the_calendar() {
    let lo = Timestamp { secs: -8_334_601_228_800, nanos: 0 };
    let hi = Timestamp { secs: 8_210_266_876_799, nanos: 999_999_999 };
    assert!(lo.in_range());
    assert!(hi.in_range());
    assert!(!Timestamp { secs: lo.secs - 1, nanos: 0 }.in_range());
    assert!(!Timestamp { secs: hi.secs + 1, nanos: 0 }.in_range());
    assert!(!Timestamp { secs: 0, nanos: 1_000_000_000 }.in_range());
    assert!(chrono::DateTime::from_timestamp(lo.secs, 0).is_some());
    assert!(chrono::DateTime::from_timestamp(lo.secs - 1, 0).is_none());
    assert!(chrono::DateTime::from_timestamp(hi.secs, 999_999_999).is_some());
    assert!(chrono::DateTime::from_timestamp(hi.secs + 1, 0).is_none());
    for secs in [lo.secs + 86_400, -62_135_596_800, 0, 1_700_000_000, 253_402_300_799, hi.secs - 86_400] {
        let e = entry("f", FileKind::File, Some(1), Some((secs, 0)));
        let label = e.modified_label();
        assert!(has_minute_label_shape(&label), "{label}");
        assert_ne!(label, "—");
    }
}

#[test]
fn modified_label_is_the_local_time() {
    for (secs, nanos) in [(0i64, 0u32), (1_700_000_000, 999_999_999), (-1, 500_000_000), (951_782_400, 0)] {
        let e = entry("f", FileKind::File, Some(1), Some((secs, nanos)));
        let expected = chrono::DateTime::from_timestamp(secs, nanos)
            .unwrap()
            .with_timezone(&chrono::Local)
            .format("%Y-%m-%d %H:%M")
            .to_string();
        assert_eq!(e.modified_label(), expected);
    }
    let a = entry("a", FileKind::File, Some(1), Some((0, 0))).modified_label();
    let b = entry("b", FileKind::File, Some(1), Some((400 * 86_400, 0))).modified_label();
    assert_ne!(a, b);
}

#[test]
fn timestamps_from_epoch_distances() {
    assert_eq!(Timestamp::from_epoch_distance(false, 5, 7), Some(Timestamp { secs: 5, nanos: 7 }));
    assert_eq!(Timestamp::from_epoch_distance(true, 5, 0), Some(Timestamp { secs: -5, nanos: 0 }));
    assert_eq!(
        Timestamp::from_epoch_distance(true, 5, 250_000_000),
        Some(Timestamp { secs: -6, nanos: 750_000_000 })
    );
    assert_eq!(
        Timestamp::from_epoch_distance(false, i64::MAX as u64, 0),
        Some(Timestamp { secs: i64::MAX, nanos: 0 })
    );
    assert_eq!(Timestamp::from_epoch_distance(true, i64::MAX as u64 + 1, 0), None);
}

fn settle(taken: &[bool]) -> u32 {
    let mut attempt = 0;
    loop {
        match after_probe(attempt, taken[attempt as usize]) {
            Probe::Use(k) => return k,
            Probe::Try(next) => attempt = next,
        }
    }
}

#[test]
fn probing_settles_on_the_first_free_candidate() {
    let mut taken = vec![true; 1000];
    assert_eq!(settle(&taken), 0);
    taken[7] = false;
    taken[9] = false;
    assert_eq!(settle(&taken), 7);
    taken[0] = false;
    assert_eq!(settle(&taken), 0);
    let mut last = vec![true; 1000];
    last[999] = false;
    assert_eq!(settle(&last), 999);
}
