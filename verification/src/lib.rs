//! A read-only namespace of files and directories held in memory.
//!
//! The namespace is filled once, from a list of files, and never changes
//! afterwards. It answers three questions about a path: which bytes are
//! stored under it, which files lie directly in it, and whether it names a
//! file or a directory.

pub mod asset_io;
pub mod error;
pub mod metadata;
pub mod path;
pub mod plugin;
pub mod tables;

pub use asset_io::EmbeddedAssetIo;
pub use error::AssetIoError;
pub use metadata::{FileType, Metadata};
pub use plugin::EmbeddedAssetsPlugin;
