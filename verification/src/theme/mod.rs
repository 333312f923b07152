//! Theme colors: hex color values, the desktop palette and where the theme
//! comes from.
pub mod color;
pub mod palette;
pub mod sources;

pub use color::{parse_hex_color, RgbaColor};
pub use palette::OmarchyPalette;
pub use sources::{colors_candidates, omarchy_colors_path, omarchy_watch_paths};
