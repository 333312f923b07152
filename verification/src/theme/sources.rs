//! Where the theme comes from: the candidate theme files in lookup order,
//! the Omarchy paths worth watching, and the desktop's dark-mode preference.
use vstd::prelude::*;
use crate::text::{chars_of, contains_chars, seq_contains};
use crate::fs::listing::{base_home_dir, home_or};
use crate::fs::path::{join_path, path_join};

verus! {

/// The theme directory below a home directory.
pub open spec fn omarchy_colors_rel() -> Seq<char> {
    ".local/state/omarchy/current/theme/colors.toml"@
}

/// The candidate theme files, in the order they are tried: the two files of
/// `$PIFILE_THEME_DIR` when it is set, then Omarchy's and Pimarchy's state
/// and config directories, `colors.toml` before `theme.conf` in each.
pub open spec fn candidates_view(theme_dir: Option<Seq<char>>, home: Seq<char>) -> Seq<Seq<char>> {
    let from_env = match theme_dir {
        Some(d) => seq![path_join(d, "colors.toml"@), path_join(d, "theme.conf"@)],
        None => Seq::empty(),
    };
    from_env + seq![
        path_join(home, ".local/state/omarchy/current/theme/colors.toml"@),
        path_join(home, ".local/state/omarchy/current/theme/theme.conf"@),
        path_join(home, ".config/omarchy/current/theme/colors.toml"@),
        path_join(home, ".config/omarchy/current/theme/theme.conf"@),
        path_join(home, ".local/state/pimarchy/current/theme/colors.toml"@),
        path_join(home, ".local/state/pimarchy/current/theme/theme.conf"@),
        path_join(home, ".config/pimarchy/current/theme/colors.toml"@),
        path_join(home, ".config/pimarchy/current/theme/theme.conf"@),
    ]
}

/// The user's home directory for theme lookup, or `.` when there is none:
/// either way a non-empty path.
pub fn home_dir() -> (r: String)
    ensures
        r@.len() > 0,
{
    proof {
        reveal_strlit(".");
    }
    home_or(base_home_dir(), ".")
}

/// Omarchy's current `colors.toml` below the home directory `home`.
pub fn omarchy_colors_path_in(home: &str) -> (r: String)
    ensures
        r@ == path_join(home@, omarchy_colors_rel()),
{
    join_path(home, ".local/state/omarchy/current/theme/colors.toml")
}

/// Omarchy's current `colors.toml` below the user's home directory.
pub fn omarchy_colors_path() -> (r: String)
    ensures
        exists|home: Seq<char>| home.len() > 0 && r@ == path_join(home, omarchy_colors_rel()),
{
    omarchy_colors_path_in(home_dir().as_str())
}

/// The candidate theme files for the theme directory `theme_dir` (the value
/// of `$PIFILE_THEME_DIR`, if set) and the home directory `home`.
pub fn colors_candidates(theme_dir: Option<&str>, home: &str) -> (paths: Vec<String>)
    ensures
        paths@.map_values(|p: String| p@) == candidates_view(
            match theme_dir {
                Some(d) => Some(d@),
                None => None,
            },
            home@,
        ),
{
    let mut paths: Vec<String> = Vec::new();
    if let Some(dir) = theme_dir {
        paths.push(join_path(dir, "colors.toml"));
        paths.push(join_path(dir, "theme.conf"));
    }
    paths.push(omarchy_colors_path_in(home));
    paths.push(join_path(home, ".local/state/omarchy/current/theme/theme.conf"));
    paths.push(join_path(home, ".config/omarchy/current/theme/colors.toml"));
    paths.push(join_path(home, ".config/omarchy/current/theme/theme.conf"));
    paths.push(join_path(home, ".local/state/pimarchy/current/theme/colors.toml"));
    paths.push(join_path(home, ".local/state/pimarchy/current/theme/theme.conf"));
    paths.push(join_path(home, ".config/pimarchy/current/theme/colors.toml"));
    paths.push(join_path(home, ".config/pimarchy/current/theme/theme.conf"));
    assert(paths@.map_values(|p: String| p@) =~= candidates_view(
        match theme_dir {
            Some(d) => Some(d@),
            None => None,
        },
        home@,
    ));
    paths
}

/// The Omarchy paths watched for theme switches below `home`: the current
/// directory, its theme directory and the theme's `colors.toml`.
pub fn omarchy_watch_paths_in(home: &str) -> (paths: Vec<String>)
    ensures
        paths@.len() == 3,
        paths@[0]@ == path_join(home@, ".local/state/omarchy/current"@),
        paths@[1]@ == path_join(paths@[0]@, "theme"@),
        paths@[2]@ == path_join(paths@[0]@, "theme/colors.toml"@),
{
    let current = join_path(home, ".local/state/omarchy/current");
    let theme = join_path(current.as_str(), "theme");
    let colors = join_path(current.as_str(), "theme/colors.toml");
    let mut paths: Vec<String> = Vec::new();
    paths.push(current);
    paths.push(theme);
    paths.push(colors);
    paths
}

/// The Omarchy paths watched for theme switches below the user's home.
pub fn omarchy_watch_paths() -> (paths: Vec<String>)
    ensures
        exists|home: Seq<char>|
            {
                &&& home.len() > 0
                &&& paths@.len() == 3
                &&& paths@[0]@ == path_join(home, ".local/state/omarchy/current"@)
                &&& paths@[1]@ == path_join(paths@[0]@, "theme"@)
                &&& paths@[2]@ == path_join(paths@[0]@, "theme/colors.toml"@)
            },
{
    omarchy_watch_paths_in(home_dir().as_str())
}

/// What the desktop's `color-scheme` setting says: dark unless the query
/// succeeded and its answer mentions `prefer-light` without `prefer-dark`.
pub open spec fn prefers_dark(succeeded: bool, answer: Seq<char>) -> bool {
    if succeeded && !seq_contains(answer, "prefer-dark"@) && seq_contains(answer, "prefer-light"@) {
        false
    } else {
        true
    }
}

/// Reads the answer of `gsettings get org.gnome.desktop.interface
/// color-scheme`: whether the query succeeded and what it printed.
pub fn scheme_is_dark(succeeded: bool, answer: &str) -> (dark: bool)
    ensures
        dark == prefers_dark(succeeded, answer@),
{
    if succeeded {
        let a = chars_of(answer);
        if contains_chars(&a, &chars_of("prefer-dark")) {
            return true;
        }
        if contains_chars(&a, &chars_of("prefer-light")) {
            return false;
        }
    }
    true
}

} // verus!
