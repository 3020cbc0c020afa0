//! Materialization of content nodes against a snapshot.

use mdpage::content::{fill_content, init_entry_contents, Content, ContentType};
use mdpage::snapshot::{Snapshot, SnapshotFile};

fn file(path: &str, content: &str) -> SnapshotFile {
    SnapshotFile { path: String::from(path), content: String::from(content) }
}

fn fixture_fs() -> Snapshot {
    Snapshot {
        files: vec![file("tests/fixtures/utils3/README.md", "# Main page\n\nSome content.")],
        dirs: vec![
            String::from("tests"),
            String::from("tests/fixtures"),
            String::from("tests/fixtures/utils3"),
        ],
    }
}

#[test]
fn test_fill_content() {
    let fs = fixture_fs();
    let root = ".";

    // empty
    let mut c = Content::new(None);
    assert!(fill_content(&mut c, &fs, root).is_ok());
    assert_eq!(c, Content::new(None));

    // just markdown
    c = Content::new(None);
    c.markdown = Some(String::from("# Hello world!"));
    assert!(fill_content(&mut c, &fs, root).is_ok());
    let mut expected = Content::new(None);
    expected.markdown = Some(String::from("# Hello world!"));
    expected.html = Some(String::from("<h1>Hello world!</h1>\n"));
    assert_eq!(c, expected);

    // with file
    c = Content::new(Some(String::from("tests/fixtures/utils3/README.md")));
    assert!(fill_content(&mut c, &fs, root).is_ok());
    let mut expected = Content::new(Some(String::from("tests/fixtures/utils3/README.md")));
    expected.label = Some(String::from("Main page"));
    expected.markdown = Some(String::from("# Main page\n\nSome content."));
    expected.html = Some(String::from("<h1>Main page</h1>\n<p>Some content.</p>\n"));
    assert_eq!(c, expected);

    // with unknown file
    c = Content::new(Some(String::from("tests/fixtures/utils3/readme_unknown.md")));
    assert!(fill_content(&mut c, &fs, root).is_err());

    // with url
    c = Content::new(Some(String::from("tests/fixtures/utils3/README.md")));
    c.url = Some(String::from("https://github.com"));
    assert!(fill_content(&mut c, &fs, root).is_ok());
    let mut expected = Content::new(Some(String::from("tests/fixtures/utils3/README.md")));
    expected.markdown = None;
    expected.html = None;
    expected.url = Some(String::from("https://github.com"));
    assert_eq!(c, expected);

    // with html
    c = Content::new(Some(String::from("tests/fixtures/utils3/README.md")));
    c.html = Some(String::from("<h1>Some title</h1>"));
    assert!(fill_content(&mut c, &fs, root).is_ok());
    let mut expected = Content::new(Some(String::from("tests/fixtures/utils3/README.md")));
    expected.markdown = None;
    expected.html = Some(String::from("<h1>Some title</h1>"));
    assert_eq!(c, expected);
}

#[test]
fn test_fill_content_twice_is_noop() {
    let fs = fixture_fs();
    let root = ".";

    let mut c = Content::new(Some(String::from("tests/fixtures/utils3/README.md")));
    assert!(fill_content(&mut c, &fs, root).is_ok());
    let once = c.duplicate();
    assert!(fill_content(&mut c, &fs, root).is_ok());
    assert_eq!(c, once);
    assert_eq!(c.file, once.file);
    assert_eq!(c.dir, once.dir);
}

#[test]
fn test_fill_content_markup_file() {
    let fs = Snapshot {
        files: vec![file("root/page.html", "  <p>already rendered</p>\n")],
        dirs: vec![String::from("root")],
    };
    let mut c = Content::new(Some(String::from("root/page.html")));
    assert!(fill_content(&mut c, &fs, "root").is_ok());
    assert_eq!(c.label, Some(String::from("page")));
    assert_eq!(c.markdown, None);
    assert_eq!(c.html, Some(String::from("<p>already rendered</p>")));
}

#[test]
fn test_fill_content_ignores_unknown_extension() {
    let fs = Snapshot {
        files: vec![file("root/data.txt", "plain text")],
        dirs: vec![String::from("root")],
    };
    let mut c = Content::new(Some(String::from("root/data.txt")));
    assert!(fill_content(&mut c, &fs, "root").is_ok());
    assert_eq!(c, Content::new(None));
}

#[test]
fn test_init_entry_contents_roles() {
    let md = file("root/index.md", "# The Index");
    let (c, ct) = init_entry_contents(&md, true).unwrap();
    assert_eq!(ct, ContentType::Main);
    assert_eq!(c.label, Some(String::from("The Index")));
    assert_eq!(c.file, Some(String::from("root/index.md")));

    let (_, ct) = init_entry_contents(&file("root/footer.md", "# F"), true).unwrap();
    assert_eq!(ct, ContentType::Footer);
    let (_, ct) = init_entry_contents(&file("root/Header.md", "# H"), true).unwrap();
    assert_eq!(ct, ContentType::Header);
    let (_, ct) = init_entry_contents(&file("root/plain.md", "# P"), true).unwrap();
    assert_eq!(ct, ContentType::Normal);

    // a markup file qualifies only when roles are not checked
    assert!(init_entry_contents(&file("root/page.html", "<p>x</p>"), true).is_none());
    assert!(init_entry_contents(&file("root/page.html", "<p>x</p>"), false).is_some());
    // other files never qualify
    assert!(init_entry_contents(&file("root/notes.txt", "x"), false).is_none());

    // a file with no heading takes its stem as label
    let (c, _) = init_entry_contents(&file("root/plain.md", "no heading"), false).unwrap();
    assert_eq!(c.label, Some(String::from("plain")));
}

#[test]
fn test_content_constructors() {
    let c = Content::new(Some(String::from("a.md")));
    assert_eq!(c.is_heading, Some(false));
    assert_eq!(c.is_break, Some(false));
    assert_eq!(c.file, Some(String::from("a.md")));
    assert_eq!(c.label, None);

    let h = Content::new_heading(String::from("Section"));
    assert_eq!(h.is_heading, Some(true));
    assert_eq!(h.is_break, Some(false));
    assert_eq!(h.label, Some(String::from("Section")));
    assert_eq!(h.file, None);

    let b = Content::new_break();
    assert_eq!(b.is_heading, Some(false));
    assert_eq!(b.is_break, Some(true));
    assert_eq!(b.label, None);
}
