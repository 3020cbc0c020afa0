//! Whole builds against a snapshot: merge, expansion, materialization,
//! link kinds and configuration lookup.

use mdpage::content::Content;
use mdpage::data::{config_file, Data, LinkType};
use mdpage::error::BuildError;
use mdpage::paths::is_ext;
use mdpage::snapshot::{Snapshot, SnapshotFile};

fn file(path: &str, content: &str) -> SnapshotFile {
    SnapshotFile { path: String::from(path), content: String::from(content) }
}

fn dir_names(names: &[&str]) -> Vec<String> {
    names.iter().map(|n| String::from(*n)).collect()
}

fn scenario_fs() -> Snapshot {
    Snapshot {
        files: vec![
            file("root/b.md", "# B"),
            file("root/a.md", "# A"),
            file("root/sub/c.md", "# C"),
        ],
        dirs: dir_names(&["root", "root/sub"]),
    }
}

#[test]
fn test_link_type() {
    assert_eq!(LinkType::from_str("style"), Some(LinkType::Style));
    assert_eq!(LinkType::from_str("stylesheet"), Some(LinkType::Style));
    assert_eq!(LinkType::from_str("script"), Some(LinkType::Script));
    assert_eq!(LinkType::from_str("font"), None);
    assert_eq!(LinkType::Style.as_str(), "stylesheet");
    assert_eq!(LinkType::Script.as_str(), "script");
}

#[test]
fn test_data_default() {
    let d = Data::default();
    assert_eq!(d.full_page, Some(false));
    assert_eq!(d.title, None);
    assert_eq!(d.subtitle, None);
    assert_eq!(d.author, None);
    assert_eq!(d.icon, None);
    assert!(d.main.is_none());
    assert!(d.contents.is_none());
    assert_eq!(d.script, None);
    assert_eq!(d.style, None);
    assert!(d.links.is_none());
    assert!(d.header.is_none());
    assert!(d.footer.is_none());
}

#[test]
fn test_is_ext() {
    assert!(is_ext("a/b.md", "md"));
    assert!(is_ext("a/b.MD", "md"));
    assert!(is_ext("a/b.Html", "html"));
    assert!(!is_ext("a/b.md", "html"));
    assert!(!is_ext("a/b", "md"));
    assert!(!is_ext("a/b.", "md"));
}

#[test]
fn test_config_file() {
    let both = Snapshot {
        files: vec![file("root/mdpage.json", "{}"), file("root/mdpage.toml", "")],
        dirs: dir_names(&["root"]),
    };
    assert_eq!(config_file(&both, "root"), Some(String::from("root/mdpage.json")));

    let toml_only = Snapshot {
        files: vec![file("root/mdpage.toml", "")],
        dirs: dir_names(&["root"]),
    };
    assert_eq!(config_file(&toml_only, "root"), Some(String::from("root/mdpage.toml")));

    let neither = Snapshot { files: vec![], dirs: dir_names(&["root"]) };
    assert_eq!(config_file(&neither, "root"), None);
}

#[test]
fn test_init_empty_dir() {
    let fs = Snapshot { files: vec![], dirs: dir_names(&["tests"]) };
    let mut data = Data::default();
    assert!(data.init(&fs, "tests").is_ok());
    assert_eq!(data.title, Some(String::from("tests")));
    assert_eq!(data.contents.as_ref().unwrap().len(), 0);
    assert!(data.main.is_none());
    assert!(data.header.is_none());
    assert!(data.footer.is_none());
}

#[test]
fn test_init_missing_root() {
    let fs = Snapshot { files: vec![], dirs: vec![] };
    let mut data = Data::default();
    let err = data.init(&fs, "absent").unwrap_err();
    assert!(matches!(err, BuildError::Io { .. }));
}

#[test]
fn test_end_to_end_scenario() {
    let fs = scenario_fs();
    let mut data = Data::default();
    assert!(data.build(&fs, "root").is_ok());

    let contents = data.contents.as_ref().unwrap();
    assert_eq!(contents.len(), 6);

    assert_eq!(contents[0].label, Some(String::from("A")));
    assert_eq!(contents[0].html, Some(String::from("<h1>A</h1>\n")));
    assert_eq!(contents[1].label, Some(String::from("B")));
    assert_eq!(contents[2].is_break, Some(true));
    assert_eq!(contents[3].is_heading, Some(true));
    assert_eq!(contents[3].label, Some(String::from("sub")));
    assert_eq!(contents[4].label, Some(String::from("C")));
    assert_eq!(contents[5].is_break, Some(true));

    // the computed title comes from the root directory's name
    assert_eq!(data.title, Some(String::from("root")));
    // every directory placeholder is gone after a successful build
    for c in contents.iter() {
        assert!(c.dir.is_none());
    }
}

#[test]
fn test_role_exclusivity() {
    let fs = Snapshot {
        files: vec![
            file("root/index.md", "# The Index"),
            file("root/header.md", "# The Header"),
            file("root/footer.md", "# The Footer"),
        ],
        dirs: dir_names(&["root"]),
    };
    let mut data = Data::default();
    assert!(data.build(&fs, "root").is_ok());

    assert_eq!(data.main.as_ref().unwrap().label, Some(String::from("The Index")));
    assert_eq!(data.header.as_ref().unwrap().label, Some(String::from("The Header")));
    assert_eq!(data.footer.as_ref().unwrap().label, Some(String::from("The Footer")));
    assert_eq!(data.contents.as_ref().unwrap().len(), 0);
    // the index file names the document
    assert_eq!(data.title, Some(String::from("The Index")));
}

#[test]
fn test_override_precedence() {
    let fs = scenario_fs();
    let mut data = Data::default();
    data.title = Some(String::from("Custom title"));
    data.subtitle = Some(String::from("Custom subtitle"));
    assert!(data.build(&fs, "root").is_ok());

    assert_eq!(data.title, Some(String::from("Custom title")));
    assert_eq!(data.subtitle, Some(String::from("Custom subtitle")));
    assert_eq!(data.contents.as_ref().unwrap().len(), 6);
}

#[test]
fn test_override_contents_authoritative() {
    let fs = scenario_fs();
    let mut data = Data::default();
    data.contents = Some(vec![]);
    assert!(data.build(&fs, "root").is_ok());
    // a present, even empty, override contents list is taken as authoritative
    assert_eq!(data.contents.as_ref().unwrap().len(), 0);
}

#[test]
fn test_directory_expansion() {
    // a placeholder for a leaf directory becomes its plain file entries
    let fs = scenario_fs();
    let mut data = Data::default();
    let mut node = Content::new(None);
    node.file = None;
    node.dir = Some(String::from("root/sub"));
    data.contents = Some(vec![node]);
    assert!(data.build(&fs, "root").is_ok());

    let contents = data.contents.as_ref().unwrap();
    assert_eq!(contents.len(), 1);
    assert_eq!(contents[0].label, Some(String::from("C")));
    assert_eq!(contents[0].html, Some(String::from("<h1>C</h1>\n")));
    assert!(contents[0].dir.is_none());
}

#[test]
fn test_directory_expansion_with_subdirectories() {
    // a placeholder for a directory with subdirectories becomes its sorted
    // file entries followed by the subdirectory groups
    let fs = scenario_fs();
    let mut data = Data::default();
    let mut node = Content::new(None);
    node.dir = Some(String::from("root"));
    data.contents = Some(vec![node]);
    assert!(data.build(&fs, "root").is_ok());

    let contents = data.contents.as_ref().unwrap();
    assert_eq!(contents.len(), 5);
    assert_eq!(contents[0].label, Some(String::from("A")));
    assert_eq!(contents[1].label, Some(String::from("B")));
    assert_eq!(contents[2].is_heading, Some(true));
    assert_eq!(contents[2].label, Some(String::from("sub")));
    assert_eq!(contents[3].label, Some(String::from("C")));
    assert_eq!(contents[4].is_break, Some(true));
    for c in contents.iter() {
        assert!(c.dir.is_none());
    }
}

#[test]
fn test_directory_expansion_rejects_file() {
    let fs = scenario_fs();
    let mut data = Data::default();
    let mut node = Content::new(None);
    node.dir = Some(String::from("root/a.md"));
    data.contents = Some(vec![node]);
    let err = data.build(&fs, "root").unwrap_err();
    assert!(matches!(err, BuildError::InvalidConfig { .. }));
}

#[test]
fn test_error_propagation() {
    let fs = scenario_fs();
    let mut data = Data::default();
    data.main = Some(Content::new(Some(String::from("root/missing.md"))));
    let err = data.build(&fs, "root").unwrap_err();
    assert!(matches!(err, BuildError::Io { .. }));
    let msg = err.message();
    assert!(msg.contains("root/missing.md"));
}

#[test]
fn test_path_resolution_error() {
    let fs = Snapshot {
        files: vec![file("/r/a.md", "# A")],
        dirs: dir_names(&["/r"]),
    };
    let mut data = Data::default();
    data.main = Some(Content::new(Some(String::from("missing.md"))));
    let err = data.build(&fs, "/r").unwrap_err();
    assert!(matches!(err, BuildError::PathResolution { .. }));
}

#[test]
fn test_relative_path_resolved_against_root() {
    let fs = Snapshot {
        files: vec![file("/r/a.md", "# A")],
        dirs: dir_names(&["/r"]),
    };
    let mut data = Data::default();
    data.main = Some(Content::new(Some(String::from("a.md"))));
    assert!(data.build(&fs, "/r").is_ok());
    assert_eq!(data.main.as_ref().unwrap().label, Some(String::from("A")));
}
