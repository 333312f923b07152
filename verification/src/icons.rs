//! The icons of the places sidebar and the asset paths they are served
//! under.
use vstd::prelude::*;
use crate::text::{chars_of, ends_with_chars, seq_ends_with, seq_starts_with, starts_with_chars};

verus! {

/// Lucide icons used by the places sidebar.
#[derive(Clone, Copy, Debug, PartialEq, Eq, Structural)]
pub enum PlaceIcon {
    House,
    Monitor,
    FileText,
    ArrowDown,
    Music,
    Image,
    MonitorPlay,
    HardDrive,
}

/// The asset path of each icon.
pub open spec fn icon_asset_path(icon: PlaceIcon) -> Seq<char> {
    match icon {
        PlaceIcon::House => "icons/house.svg"@,
        PlaceIcon::Monitor => "icons/monitor.svg"@,
        PlaceIcon::FileText => "icons/file-text.svg"@,
        PlaceIcon::ArrowDown => "icons/arrow-down.svg"@,
        PlaceIcon::Music => "icons/music.svg"@,
        PlaceIcon::Image => "icons/image.svg"@,
        PlaceIcon::MonitorPlay => "icons/monitor-play.svg"@,
        PlaceIcon::HardDrive => "icons/hard-drive.svg"@,
    }
}

impl PlaceIcon {
    /// The asset path the icon is served under.
    pub fn path(self) -> (p: &'static str)
        ensures
            p@ == icon_asset_path(self),
    {
        match self {
            PlaceIcon::House => "icons/house.svg",
            PlaceIcon::Monitor => "icons/monitor.svg",
            PlaceIcon::FileText => "icons/file-text.svg",
            PlaceIcon::ArrowDown => "icons/arrow-down.svg",
            PlaceIcon::Music => "icons/music.svg",
            PlaceIcon::Image => "icons/image.svg",
            PlaceIcon::MonitorPlay => "icons/monitor-play.svg",
            PlaceIcon::HardDrive => "icons/hard-drive.svg",
        }
    }
}

/// The application's own assets: the bundled sidebar icons, served
/// alongside the toolkit's icon set.
pub struct PifileAssets;

/// Whether an asset path names one of the bundled icons: `icons/*.svg`.
pub open spec fn is_bundled_icon_path(path: Seq<char>) -> bool {
    seq_starts_with(path, "icons/"@) && seq_ends_with(path, ".svg"@)
}

impl PifileAssets {
    /// Whether `path` is looked up among the bundled icons before the
    /// toolkit's assets.
    pub fn serves(path: &str) -> (r: bool)
        ensures
            r == is_bundled_icon_path(path@),
    {
        let p = chars_of(path);
        starts_with_chars(&p, &chars_of("icons/")) && ends_with_chars(&p, &chars_of(".svg"))
    }
}

} // verus!
