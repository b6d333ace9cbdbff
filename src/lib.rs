//! Netscape-style bookmark index files kept in step with a folder: a parser for
//! the index format, the rules that choose folder entries, a merge that keeps
//! user metadata, and a renderer that the parser inverts.

pub mod album;
pub mod clock;
pub mod encode;
pub mod flatten;
pub mod gallery;
pub mod heading;
pub mod layout;
pub mod lexer;
pub mod merge;
pub mod model;
pub mod parser;
pub mod render;
pub mod roundtrip;
pub mod scan;
pub mod skipping;
pub mod stability;
pub mod text;
pub mod tree;

pub use clock::system_time_to_unix_timestamp;
pub use encode::{encode_name, encode_path_preserving_slashes};
pub use flatten::extract_bookmark_files;
pub use merge::merge_bookmarks;
pub use model::{
    BookmarkEntry, BookmarkFile, BookmarkFolder, BookmarkItem, ScannedDir, ScannedFile,
};
pub use parser::{extract_title_from_bookmarks, parse_existing_bookmarks};
pub use render::generate_bookmark_html;
pub use scan::{is_hidden, scan_directory, DirEntry, EntryKind};
pub use album::{folder_depth_error, parse_image_sizes, should_descend, ImageSize};
pub use tree::{tree_rows, TreeNode};
pub use gallery::{build_album_index, photo_record, PhotoRecord, SizeRecord};
