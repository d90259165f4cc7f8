use mdnotes::delete_plan;
use mdnotes::downloads_folder_from_probe;
use mdnotes::read_folder_items;
use mdnotes::DeleteKind;
use mdnotes::DirEntryInfo;
use mdnotes::EntryMeta;
use mdnotes::NoteError;

fn entry(name: &str, meta: Option<EntryMeta>) -> DirEntryInfo {
    DirEntryInfo {
        name: name.to_string(),
        path: format!("/base/{}", name),
        meta,
    }
}

#[test]
fn folder_listing_shows_each_readable_entry() {
    let entries = vec![
        entry(
            "a.txt",
            Some(EntryMeta {
                is_dir: false,
                size: 12,
                modified_secs: Some(1_700_000_000),
            }),
        ),
        entry(
            "sub",
            Some(EntryMeta {
                is_dir: true,
                size: 4096,
                modified_secs: None,
            }),
        ),
    ];
    let items = read_folder_items(entries);
    assert_eq!(items.len(), 2);
    assert_eq!(items[0].name, "a.txt");
    assert_eq!(items[0].path, "/base/a.txt");
    assert!(!items[0].is_dir);
    assert_eq!(items[0].size, 12);
    assert_eq!(items[0].modified.as_deref(), Some("1700000000"));
    assert!(items[1].is_dir);
    assert_eq!(items[1].modified, None);
}

#[test]
fn folder_listing_skips_unreadable_entries() {
    let entries = vec![
        entry("ghost", None),
        entry(
            "real",
            Some(EntryMeta {
                is_dir: false,
                size: 1,
                modified_secs: None,
            }),
        ),
    ];
    let items = read_folder_items(entries);
    assert_eq!(items.len(), 1);
    assert_eq!(items[0].name, "real");
}

#[test]
fn empty_folder_lists_nothing() {
    assert!(read_folder_items(Vec::new()).is_empty());
}

#[test]
fn delete_plan_missing_path_is_not_found() {
    assert_eq!(delete_plan(false, false), Err(NoteError::NotFound));
    assert_eq!(delete_plan(false, true), Err(NoteError::NotFound));
}

#[test]
fn delete_plan_picks_the_removal_kind() {
    assert_eq!(delete_plan(true, true), Ok(DeleteKind::DirectoryTree));
    assert_eq!(delete_plan(true, false), Ok(DeleteKind::File));
}

#[test]
fn downloads_folder_outcomes() {
    assert_eq!(
        downloads_folder_from_probe(None),
        Err(NoteError::Unavailable)
    );
    assert_eq!(
        downloads_folder_from_probe(Some(None)),
        Err(NoteError::InvalidInput)
    );
    assert_eq!(
        downloads_folder_from_probe(Some(Some("/home/u/Downloads".to_string()))),
        Ok("/home/u/Downloads".to_string())
    );
}
