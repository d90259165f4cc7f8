use mdnotes::NoteError;
use mdnotes::NoteStore;
use mdnotes::StoredFile;

fn md_file(name: &str, content: &str, modified: Option<u64>, created: Option<u64>) -> StoredFile {
    StoredFile {
        name: name.to_string(),
        content: content.to_string(),
        modified_secs: modified,
        created_secs: created,
    }
}

#[test]
fn create_then_read_returns_content() {
    let mut store = NoteStore::new();
    let filename = store.create_note(1_700_000_000_123, "Shopping List", "milk\neggs".to_string());
    assert_eq!(filename, "1700000000123-Shopping-List.md");
    let content = store.read_note(&filename).unwrap();
    assert_eq!(content, "milk\neggs");
}

#[test]
fn create_note_sanitizes_title() {
    let mut store = NoteStore::new();
    let filename = store.create_note(5, "a/b c?d", String::new());
    assert_eq!(filename, "5-a-b-c-d.md");
}

#[test]
fn read_missing_note_is_not_found() {
    let store = NoteStore::new();
    assert_eq!(store.read_note("123-gone.md"), Err(NoteError::NotFound));
}

#[test]
fn update_note_overwrites_content() {
    let mut store = NoteStore::new();
    let filename = store.create_note(1_000, "t", "old".to_string());
    store.update_note(&filename, "new".to_string(), 2_000).unwrap();
    assert_eq!(store.read_note(&filename).unwrap(), "new");
}

#[test]
fn update_missing_note_is_not_found() {
    let mut store = NoteStore::new();
    assert_eq!(
        store.update_note("123-gone.md", "x".to_string(), 1_000),
        Err(NoteError::NotFound)
    );
}

#[test]
fn delete_note_removes_it() {
    let mut store = NoteStore::new();
    let filename = store.create_note(1_000, "t", "x".to_string());
    store.delete_note(&filename).unwrap();
    assert_eq!(store.read_note(&filename), Err(NoteError::NotFound));
}

#[test]
fn delete_missing_note_is_not_found_and_changes_nothing() {
    let mut store = NoteStore::new();
    let filename = store.create_note(1_000, "keep", "x".to_string());
    assert_eq!(store.delete_note("123-gone.md"), Err(NoteError::NotFound));
    let notes = store.list_notes();
    assert_eq!(notes.len(), 1);
    assert_eq!(notes[0].filename, filename);
    assert_eq!(store.read_note(&filename).unwrap(), "x");
}

#[test]
fn rename_note_keeps_timestamp_prefix() {
    let mut store = NoteStore::new();
    let old = store.create_note(1_700_000_000_123, "old title", "body".to_string());
    assert_eq!(old, "1700000000123-old-title.md");
    let new = store.rename_note(&old, "new title").unwrap();
    assert_eq!(new, "1700000000123-new-title.md");
    assert_eq!(store.read_note(&new).unwrap(), "body");
    assert_eq!(store.read_note(&old), Err(NoteError::NotFound));
}

#[test]
fn rename_missing_note_is_not_found() {
    let mut store = NoteStore::new();
    assert_eq!(
        store.rename_note("123-gone.md", "t"),
        Err(NoteError::NotFound)
    );
}

#[test]
fn rename_without_prefix_is_invalid_input() {
    let mut store = NoteStore::new();
    store.load_file(md_file("nodash.md", "x", Some(1), Some(1)));
    assert_eq!(
        store.rename_note("nodash.md", "t"),
        Err(NoteError::InvalidInput)
    );
    // the store is untouched
    assert_eq!(store.read_note("nodash.md").unwrap(), "x");
}

#[test]
fn rename_overwrites_existing_target() {
    let mut store = NoteStore::new();
    store.load_file(md_file("100-a.md", "from", Some(1), Some(1)));
    store.load_file(md_file("100-b.md", "target", Some(2), Some(2)));
    let new = store.rename_note("100-a.md", "b").unwrap();
    assert_eq!(new, "100-b.md");
    assert_eq!(store.list_notes().len(), 1);
    assert_eq!(store.read_note("100-b.md").unwrap(), "from");
}

#[test]
fn list_notes_sorts_numerically_descending() {
    // string timestamps "100", "200", "50": a lexicographic descending sort
    // would yield 50, 200, 100; the numeric order is 200, 100, 50
    let mut store = NoteStore::new();
    store.load_file(md_file("1-a.md", "", Some(100), Some(100)));
    store.load_file(md_file("2-b.md", "", Some(200), Some(200)));
    store.load_file(md_file("3-c.md", "", Some(50), Some(50)));
    let notes = store.list_notes();
    let modified: Vec<&str> = notes.iter().map(|n| n.modified.as_str()).collect();
    assert_eq!(modified, vec!["200", "100", "50"]);
}

#[test]
fn list_notes_derives_title_and_skips_non_markdown() {
    let mut store = NoteStore::new();
    store.load_file(md_file("1700-my-note.md", "body", Some(7), Some(3)));
    store.load_file(md_file("notes.txt", "ignored", Some(9), Some(9)));
    let notes = store.list_notes();
    assert_eq!(notes.len(), 1);
    assert_eq!(notes[0].filename, "1700-my-note.md");
    assert_eq!(notes[0].title, "my-note");
    assert_eq!(notes[0].content, "body");
    assert_eq!(notes[0].modified, "7");
    assert_eq!(notes[0].created, "3");
}

#[test]
fn list_notes_missing_timestamps_render_empty_and_sort_last() {
    let mut store = NoteStore::new();
    store.load_file(md_file("1-a.md", "", None, None));
    store.load_file(md_file("2-b.md", "", Some(5), None));
    let notes = store.list_notes();
    assert_eq!(notes[0].filename, "2-b.md");
    assert_eq!(notes[0].modified, "5");
    // creation falls back to the modification time
    assert_eq!(notes[0].created, "5");
    assert_eq!(notes[1].filename, "1-a.md");
    assert_eq!(notes[1].modified, "");
    assert_eq!(notes[1].created, "");
}

#[test]
fn download_cancelled_succeeds_without_write() {
    let mut store = NoteStore::new();
    let filename = store.create_note(1_000, "t", "body".to_string());
    let r = store.download_note(&filename, None).unwrap();
    assert!(r.is_none());
}

#[test]
fn download_with_destination_carries_content() {
    let mut store = NoteStore::new();
    let filename = store.create_note(1_000, "t", "body".to_string());
    let r = store
        .download_note(&filename, Some("/tmp/out.md".to_string()))
        .unwrap()
        .unwrap();
    assert_eq!(r.destination, "/tmp/out.md");
    assert_eq!(r.content, "body");
}

#[test]
fn download_missing_note_is_not_found() {
    let store = NoteStore::new();
    assert!(matches!(
        store.download_note("123-gone.md", None),
        Err(NoteError::NotFound)
    ));
}

#[test]
fn create_note_overwrite_keeps_creation_time() {
    let mut store = NoteStore::new();
    let first = store.create_note(1_000_000, "same", "one".to_string());
    let second = store.create_note(1_000_000, "same", "two".to_string());
    assert_eq!(first, second);
    let notes = store.list_notes();
    assert_eq!(notes.len(), 1);
    assert_eq!(notes[0].content, "two");
    assert_eq!(notes[0].created, "1000");
    assert_eq!(notes[0].modified, "1000");
}
