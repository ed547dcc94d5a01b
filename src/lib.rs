//! Selection of operating-system processes to terminate: parsing of a process
//! listing, descendant-tree resolution, pattern selection and ownership filtering.

pub mod error;
pub mod exec;
pub mod listing;
pub mod matching;
pub mod psentry;
pub mod select;
pub mod text;
pub mod uid;

pub use error::{Error, Result};
pub use exec::{plan, process, Action};
pub use listing::{list_all, parse_listing};
pub use matching::{compile_pattern, list_matches, select_flagged, select_matching, Pattern};
pub use psentry::{ParsingError, PsEntry};
pub use select::list_descendants;
pub use uid::UID;
