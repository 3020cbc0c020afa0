//! Title inference: headings, file stems, directory names and index files.

use mdpage::snapshot::{Snapshot, SnapshotFile};
use mdpage::text::title_string;
use mdpage::titles::{build_title_for_dir, get_title_from_file, is_index_file};

fn file(path: &str, content: &str) -> SnapshotFile {
    SnapshotFile { path: String::from(path), content: String::from(content) }
}

fn dir_names(names: &[&str]) -> Vec<String> {
    names.iter().map(|n| String::from(*n)).collect()
}

#[test]
fn test_title_string() {
    assert_eq!(title_string("Hello world!"), None);
    assert_eq!(title_string("#Hello world!").unwrap(), "Hello world!");
    assert_eq!(title_string("# Hello world!").unwrap(), "Hello world!");
    assert_eq!(title_string("##Hello world!").unwrap(), "Hello world!");
    assert_eq!(title_string("## Hello world!").unwrap(), "Hello world!");
    assert_eq!(title_string("###   Hello world!   ").unwrap(), "Hello world!");
    assert_eq!(title_string("      ###   Hello world!   ").unwrap(), "Hello world!");
}

#[test]
fn test_title_string_scans_lines() {
    assert_eq!(title_string("plain text\n\n# Late title\nmore").unwrap(), "Late title");
    assert_eq!(title_string("\n\n## Indented\n").unwrap(), "Indented");
    assert_eq!(title_string("###\ntext"), None);
    assert_eq!(title_string(""), None);
}

#[test]
fn test_get_title_from_file() {
    let fs = Snapshot {
        files: vec![
            file("tests/fixtures/utils/title.md", "# Hello world!\n"),
            file("tests/fixtures/utils/title2.md", "Hello world!\n"),
        ],
        dirs: dir_names(&["tests", "tests/fixtures", "tests/fixtures/utils"]),
    };

    let path = "tests/fixtures/utils/title.md";
    assert_eq!(get_title_from_file(&fs, path, false).unwrap().unwrap(), "Hello world!");
    assert_eq!(get_title_from_file(&fs, path, true).unwrap().unwrap(), "Hello world!");

    let path = "tests/fixtures/utils/title2.md";
    assert_eq!(get_title_from_file(&fs, path, false).unwrap(), None);
    assert_eq!(get_title_from_file(&fs, path, true).unwrap().unwrap(), "title2");

    let path = "tests/fixtures/utils/unknown_file_test.md";
    assert!(get_title_from_file(&fs, path, false).is_err());
}

#[test]
fn test_build_title_for_dir() {
    let fs = Snapshot {
        files: vec![
            file("tests/fixtures/utils/title.md", "# Hello world!\n"),
            file("tests/fixtures/utils/title2.md", "Hello world!\n"),
            file("tests/fixtures/utils2/index.md", "# Main index\n"),
            file("tests/fixtures/utils2/other.md", "# Other\n"),
            file("tests/fixtures/utils3/README.md", "# Main page\n\nSome content."),
            file("docs/examples/single_index/index.md", "# Single doc\n"),
            file("docs/examples/single_page/page.md", "no heading here\n"),
        ],
        dirs: dir_names(&[
            "tests",
            "tests/fixtures",
            "tests/fixtures/utils",
            "tests/fixtures/utils2",
            "tests/fixtures/utils3",
            "docs",
            "docs/examples",
            "docs/examples/single_index",
            "docs/examples/single_page",
        ]),
    };

    assert_eq!(build_title_for_dir(&fs, "tests/fixtures", false), "fixtures");
    assert_eq!(build_title_for_dir(&fs, "tests/fixtures", true), "fixtures");

    assert_eq!(build_title_for_dir(&fs, "tests/fixtures/utils", false), "utils");
    assert_eq!(build_title_for_dir(&fs, "tests/fixtures/utils", true), "utils");

    assert_eq!(build_title_for_dir(&fs, "tests/fixtures/utils2", false), "utils2");
    assert_eq!(build_title_for_dir(&fs, "tests/fixtures/utils2", true), "Main index");

    assert_eq!(build_title_for_dir(&fs, "tests/fixtures/utils3", false), "utils3");
    assert_eq!(build_title_for_dir(&fs, "tests/fixtures/utils3", true), "Main page");

    assert_eq!(build_title_for_dir(&fs, "docs/examples/single_index", true), "Single doc");
    assert_eq!(build_title_for_dir(&fs, "docs/examples/single_index", false), "single_index");

    assert_eq!(build_title_for_dir(&fs, "docs/examples/single_page", true), "single_page");
}

#[test]
fn test_is_index_file() {
    assert!(!is_index_file(&file("tests/fixtures/utils/title.md", "")));
    assert!(!is_index_file(&file("tests/fixtures/utils/title2.md", "")));
    assert!(is_index_file(&file("tests/fixtures/utils2/index.md", "")));
    assert!(is_index_file(&file("tests/fixtures/utils3/README.md", "")));
    assert!(!is_index_file(&file("tests/fixtures/utils3/readme_unknown.md", "")));
    assert!(is_index_file(&file("a/Index.MD", "")));
}
