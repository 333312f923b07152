//! Pifile: the logic of a keyboard-first file manager, verified with Verus.
pub mod text;
pub mod theme;
pub mod fs;
pub mod icons;
pub mod browser;
