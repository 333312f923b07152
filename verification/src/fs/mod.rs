//! The file-system side of the browser: paths, directory entries, listings
//! and the checks and plans behind the file operations.
pub mod entry;
pub mod listing;
pub mod ops;
pub mod path;

pub use entry::{parent_of, DirEntry, FileKind};
pub use listing::{home_dir, list_dir, places, Place, SortKey};
pub use ops::validate_name;
