//! The file-browser operations' compute half.
//!
//! The surrounding process enumerates a directory and probes each entry's
//! metadata; `read_folder_items` turns those observations into the items the
//! browser shows.  `delete_plan` decides how a path is to be removed, and
//! `get_downloads_folder` resolves the OS downloads directory through the
//! `dirs` crate.

use crate::errors::NoteError;
use crate::numerals::dec_str;
use crate::numerals::u64_to_dec;
use vstd::prelude::*;

verus! {

/// A directory entry as the file browser shows it: name, absolute path,
/// kind, byte size, and the modification time in decimal seconds since the
/// epoch, absent when the filesystem does not expose it.
pub struct FileItem {
    pub name: String,
    pub path: String,
    pub is_dir: bool,
    pub size: u64,
    pub modified: Option<String>,
}

/// The mathematical image of a `FileItem`.
pub ghost struct FileItemV {
    pub name: Seq<char>,
    pub path: Seq<char>,
    pub is_dir: bool,
    pub size: u64,
    pub modified: Option<Seq<char>>,
}

impl View for FileItem {
    type V = FileItemV;

    open spec fn view(&self) -> FileItemV {
        FileItemV {
            name: self.name@,
            path: self.path@,
            is_dir: self.is_dir,
            size: self.size,
            modified: match self.modified {
                Option::Some(ref s) => Option::Some(s@),
                Option::None => Option::None,
            },
        }
    }
}

/// What a metadata probe of one directory entry observed.
#[derive(Clone, Copy)]
pub struct EntryMeta {
    pub is_dir: bool,
    pub size: u64,
    pub modified_secs: Option<u64>,
}

/// One enumerated directory entry: its name and path, and its metadata
/// where the probe succeeded.
pub struct DirEntryInfo {
    pub name: String,
    pub path: String,
    pub meta: Option<EntryMeta>,
}

/// The mathematical image of a `DirEntryInfo`.
pub ghost struct DirEntryV {
    pub name: Seq<char>,
    pub path: Seq<char>,
    pub meta: Option<EntryMeta>,
}

impl View for DirEntryInfo {
    type V = DirEntryV;

    open spec fn view(&self) -> DirEntryV {
        DirEntryV { name: self.name@, path: self.path@, meta: self.meta }
    }
}

/// The browser item an entry with readable metadata yields.
pub open spec fn file_item_of(e: DirEntryV, m: EntryMeta) -> FileItemV {
    FileItemV {
        name: e.name,
        path: e.path,
        is_dir: m.is_dir,
        size: m.size,
        modified: match m.modified_secs {
            Option::Some(t) => Option::Some(dec_str(t as nat)),
            Option::None => Option::None,
        },
    }
}

/// The items a folder listing shows: one per enumerated entry whose
/// metadata could be read, in enumeration order.
pub open spec fn folder_items(s: Seq<DirEntryV>) -> Seq<FileItemV>
    decreases s.len(),
{
    if s.len() == 0 {
        Seq::empty()
    } else {
        folder_items(s.drop_last()) + (match s.last().meta {
            Option::Some(m) => seq![file_item_of(s.last(), m)],
            Option::None => Seq::empty(),
        })
    }
}

/// The compute half of `read_folder`: returns exactly the enumerated
/// entries whose metadata probe succeeded, in enumeration order, with the
/// modification time rendered in decimal seconds; entries whose metadata
/// could not be read are skipped.
pub fn read_folder_items(entries: Vec<DirEntryInfo>) -> (r: Vec<FileItem>)
    ensures
        r@.map_values(|it: FileItem| it@) == folder_items(
            entries@.map_values(|e: DirEntryInfo| e@),
        ),
{
    let ghost all = entries@.map_values(|e: DirEntryInfo| e@);
    let mut rest = entries;
    let mut out: Vec<FileItem> = Vec::new();
    while rest.len() > 0
        invariant
            rest@.len() <= all.len(),
            rest@.map_values(|e: DirEntryInfo| e@) == all.subrange(
                all.len() - rest@.len(),
                all.len() as int,
            ),
            out@.map_values(|it: FileItem| it@) == folder_items(
                all.subrange(0, all.len() - rest@.len()),
            ),
        decreases rest@.len(),
    {
        let ghost k: int = all.len() - rest@.len();
        let ghost pre_rest = rest@;
        let ghost pre_out = out@;
        let e = rest.remove(0);
        proof {
            assert(e@ == pre_rest.map_values(|x: DirEntryInfo| x@)[0]);
            assert(e@ == all[k]);
            assert(rest@.map_values(|x: DirEntryInfo| x@) =~= pre_rest.map_values(
                |x: DirEntryInfo| x@,
            ).remove(0));
            assert(rest@.map_values(|x: DirEntryInfo| x@) =~= all.subrange(
                k + 1,
                all.len() as int,
            ));
        }
        match e.meta {
            Option::Some(m) => {
                let modified = match m.modified_secs {
                    Option::Some(t) => Option::Some(u64_to_dec(t)),
                    Option::None => Option::None,
                };
                let item = FileItem {
                    name: e.name,
                    path: e.path,
                    is_dir: m.is_dir,
                    size: m.size,
                    modified,
                };
                proof {
                    assert(item@ == file_item_of(all[k], m));
                }
                out.push(item);
                proof {
                    assert(out@.map_values(|it: FileItem| it@) =~= pre_out.map_values(
                        |it: FileItem| it@,
                    ).push(item@));
                }
            },
            Option::None => {},
        }
        proof {
            let sub1 = all.subrange(0, k + 1);
            assert(sub1.drop_last() =~= all.subrange(0, k));
            assert(sub1.last() == all[k]);
            assert(out@.map_values(|it: FileItem| it@) =~= folder_items(sub1));
        }
    }
    proof {
        assert(all.subrange(0, all.len() as int) =~= all);
    }
    out
}

/// How a path is to be removed.
#[derive(Clone, Copy, Debug, PartialEq, Eq, Structural)]
pub enum DeleteKind {
    /// A plain file, removed on its own.
    File,
    /// A directory, removed with everything under it.
    DirectoryTree,
}

/// The decision half of `delete_file`: a missing path is `NotFound` and
/// nothing is removed; a directory is removed as a tree, a plain file on
/// its own.
pub fn delete_plan(exists: bool, is_dir: bool) -> (r: Result<DeleteKind, NoteError>)
    ensures
        !exists ==> r == Err::<DeleteKind, NoteError>(NoteError::NotFound),
        exists && is_dir ==> r == Ok::<DeleteKind, NoteError>(DeleteKind::DirectoryTree),
        exists && !is_dir ==> r == Ok::<DeleteKind, NoteError>(DeleteKind::File),
{
    if !exists {
        Err(NoteError::NotFound)
    } else if is_dir {
        Ok(DeleteKind::DirectoryTree)
    } else {
        Ok(DeleteKind::File)
    }
}

/// Relies on dirs::download_dir: the OS downloads directory, if the
/// environment defines one.  The inner option is the UTF-8 rendering of the
/// path, absent when the path is not valid UTF-8.  The answer depends on
/// the environment, so nothing is promised of it.
#[verifier::external_body]
fn os_download_dir() -> (r: Option<Option<String>>) {
    dirs::download_dir().map(|p| p.to_str().map(|s| s.to_string()))
}

/// Turns the probed downloads directory into the browser's answer: no
/// directory at all is `Unavailable`, a non-UTF-8 path is `InvalidInput`,
/// and a path is handed back as it came.
pub fn downloads_folder_from_probe(probe: Option<Option<String>>) -> (r: Result<String, NoteError>)
    ensures
        probe is None ==> r == Err::<String, NoteError>(NoteError::Unavailable),
        probe matches Some(None) ==> r == Err::<String, NoteError>(NoteError::InvalidInput),
        probe matches Some(Some(s)) ==> (r matches Ok(x) && x == s),
{
    match probe {
        Option::None => Err(NoteError::Unavailable),
        Option::Some(Option::None) => Err(NoteError::InvalidInput),
        Option::Some(Option::Some(s)) => Ok(s),
    }
}

/// Resolves the OS downloads directory as a string; fails when no such
/// directory is configured or its path is not UTF-8.
pub fn get_downloads_folder() -> (r: Result<String, NoteError>)
    ensures
        r matches Err(e) ==> (e == NoteError::Unavailable || e == NoteError::InvalidInput),
{
    downloads_folder_from_probe(os_download_dir())
}

} // verus!
