//! Extraction of the most recent entry from a semantically versioned
//! changelog document.
//!
//! A changelog lists its entries newest first.  Each entry starts with a
//! header line of the form `## [1.2.3] - 2022-06-24` (an optional `v` or
//! `V` may precede the version number).  The library locates every header
//! occurrence in a document, slices out the text of the first entry, and
//! formats the notification message that a caller sends elsewhere.

pub mod extract;
pub mod header;
pub mod message;

pub use extract::get_latest_changelog_entry;
pub use extract::NoHeaderFound;
pub use message::format_notification_message;
