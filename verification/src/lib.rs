//! Bulk renaming of directory entries through an editable listing of their names.
//!
//! The library holds the two parts that carry the risk: the codec that writes a
//! name, newlines and all, as one line of text and reads it back, and the
//! two-phase executor that applies a relabelling of names without renaming one
//! entry onto another that still waits for its own rename.

pub mod text;
pub mod error;
pub mod args;
pub mod escape_newlines;
pub mod encode_newlines;
pub mod tempfile_ext;
pub mod rename;
pub mod directory;
pub mod listing;
pub mod path_ext;

pub use args::{ArgError, Args};
pub use error::Error;
pub use encode_newlines::{EncodeNewlines, NewlineEncoded};
pub use escape_newlines::{EscapeNewlines, NewlineEscaped};
pub use tempfile_ext::new_tmp_file_name;
pub use rename::{Attempt, Executor, Step};
pub use listing::{listing, parse_file_names, unescape_all};
pub use path_ext::{keep_entry, max_depth, PathExt};
