//! Backend of a Markdown note-taking and file-browser application.
//!
//! The note store keeps one Markdown file per note, named
//! `<timestamp-millis>-<sanitized-title>.md`; the filename is the only durable
//! identity of a note.  This crate holds the verified logic: filename
//! construction and parsing, title sanitization, the semantics of every store
//! operation against an in-memory model of the notes directory, and the
//! listing order.  The surrounding process performs the actual file-system
//! calls and keeps the model in step with the disk.

use vstd::prelude::*;

pub mod browse;
pub mod errors;
pub mod names;
pub mod numerals;
pub mod store;

pub use browse::delete_plan;
pub use browse::downloads_folder_from_probe;
pub use browse::get_downloads_folder;
pub use browse::read_folder_items;
pub use browse::DeleteKind;
pub use browse::DirEntryInfo;
pub use browse::EntryMeta;
pub use browse::FileItem;
pub use errors::NoteError;
pub use names::make_note_filename;
pub use names::note_title;
pub use names::rename_filename;
pub use names::sanitize_title;
pub use numerals::u64_to_dec;
pub use store::NoteItem;
pub use store::NoteStore;
pub use store::SaveRequest;
pub use store::StoredFile;

verus! {

/// Greets the named caller.
pub fn greet(name: &str) -> (r: String)
    ensures
        r@ == "Hello, "@ + name@ + "! You've been greeted from Rust!"@,
{
    let mut out = String::from_str("Hello, ");
    out.append(name);
    out.append("! You've been greeted from Rust!");
    out
}

} // verus!
