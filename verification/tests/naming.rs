use mdnotes::greet;
use mdnotes::make_note_filename;
use mdnotes::note_title;
use mdnotes::rename_filename;
use mdnotes::sanitize_title;
use mdnotes::u64_to_dec;
use mdnotes::NoteError;

#[test]
fn greet_formats_the_name() {
    assert_eq!(greet("World"), "Hello, World! You've been greeted from Rust!");
}

#[test]
fn sanitize_keeps_safe_characters() {
    assert_eq!(sanitize_title("Safe_Title-123"), "Safe_Title-123");
}

#[test]
fn sanitize_replaces_everything_else() {
    assert_eq!(sanitize_title("My Note: a/b?"), "My-Note--a-b-");
    assert_eq!(sanitize_title("héllo"), "h-llo");
    assert_eq!(sanitize_title(""), "");
}

#[test]
fn sanitize_is_idempotent() {
    let once = sanitize_title("a b!c\tд");
    let twice = sanitize_title(&once);
    assert_eq!(once, twice);
}

#[test]
fn decimal_rendering() {
    assert_eq!(u64_to_dec(0), "0");
    assert_eq!(u64_to_dec(7), "7");
    assert_eq!(u64_to_dec(1_700_000_000_123), "1700000000123");
    assert_eq!(u64_to_dec(u64::MAX), "18446744073709551615");
}

#[test]
fn filename_of_new_note() {
    assert_eq!(
        make_note_filename(1_700_000_000_123, "Hello World"),
        "1700000000123-Hello-World.md"
    );
    assert_eq!(make_note_filename(0, ""), "0-.md");
}

#[test]
fn title_is_derived_from_filename() {
    assert_eq!(note_title("1700-my-note.md"), "my-note");
    assert_eq!(note_title("1700-a.md"), "a");
    // no dash in the stem: no title
    assert_eq!(note_title("1700.md"), "");
    assert_eq!(note_title(""), "");
    // every trailing .md is stripped before the split
    assert_eq!(note_title("12-a.md.md"), "a");
}

#[test]
fn rename_reuses_the_timestamp_prefix() {
    assert_eq!(
        rename_filename("1700000000123-old.md", "New Title").unwrap(),
        "1700000000123-New-Title.md"
    );
}

#[test]
fn rename_without_dash_fails() {
    assert_eq!(
        rename_filename("nodash.md", "t"),
        Err(NoteError::InvalidInput)
    );
}

#[test]
fn error_messages_render() {
    assert_eq!(NoteError::NotFound.message(), "Not found");
    assert_eq!(NoteError::PermissionDenied.message(), "Permission denied");
    assert_eq!(NoteError::Unavailable.message(), "Unavailable");
    assert_eq!(NoteError::InvalidInput.message(), "Invalid input");
    assert_eq!(NoteError::IoFailure.message(), "Operation failed");
}
