use qingmo::files::OpenFile;

#[test]
fn test_open_file_is_markdown() {
    let f = OpenFile::new("test.md".to_owned(), String::new());
    assert!(f.is_markdown());
    let f2 = OpenFile::new("test.json".to_owned(), String::new());
    assert!(!f2.is_markdown());
}

#[test]
fn test_open_file_title_modified() {
    let mut f = OpenFile::new("test.md".to_owned(), String::new());
    assert_eq!(f.title(), "test.md");
    f.modified = true;
    assert_eq!(f.title(), "● test.md");
}
