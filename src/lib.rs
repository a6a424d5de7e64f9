//! Disk usage of a file tree: aggregate sizes and latest modification times,
//! sorted by size and rendered as a coloured, depth-limited listing.

pub mod laws;
pub mod model;
pub mod path;
pub mod render;
pub mod size;
pub mod text;
pub mod tree;

pub use model::{ByteType, Cli, FileInfo, ItemType, LinkStat, Meta, Probe, Timestamp, WalkError};
pub use render::{list_files, print_results};
pub use size::format_size;
pub use tree::walk;
