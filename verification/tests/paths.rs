use remote_patches::fspath::FsPath;
use remote_patches::locate::workspace_root_from_locate_output;
use remote_patches::plan::PatchProject;

#[test]
fn parse_splits_on_separators() {
    let p = FsPath::parse("/some/prefix/a");
    assert!(p.absolute);
    assert_eq!(p.segments, vec!["some", "prefix", "a"]);

    let q = FsPath::parse("../a/src");
    assert!(!q.absolute);
    assert_eq!(q.segments, vec!["..", "a", "src"]);
}

#[test]
fn parse_skips_empty_components() {
    let p = FsPath::parse("//a///b/");
    assert!(p.absolute);
    assert_eq!(p.segments, vec!["a", "b"]);

    let empty = FsPath::parse("");
    assert!(!empty.absolute);
    assert!(empty.segments.is_empty());
}

#[test]
fn display_round_trips_clean_paths() {
    for s in ["/w", "/some/prefix/a", "../a/src/x", "a/b", ""] {
        assert_eq!(FsPath::parse(s).to_path_string(), s);
    }
    assert_eq!(FsPath::parse("/a//b/").to_path_string(), "/a/b");
}

#[test]
fn starts_with_compares_whole_components() {
    let bar = FsPath::parse("/foo/bar");
    let bar2 = FsPath::parse("/foo/bar2");
    assert!(!bar2.starts_with(&bar));
    assert!(FsPath::parse("/foo/bar/x").starts_with(&bar));
    assert!(bar.starts_with(&bar));
    assert!(!bar.starts_with(&FsPath::parse("foo/bar")));
    assert!(!FsPath::parse("/foo").starts_with(&bar));
}

#[test]
fn strip_prefix_and_join_rebase_a_path() {
    let p = FsPath::parse("/w/src/a");
    let root = FsPath::parse("/w");
    let rel = p.strip_prefix(&root);
    assert!(!rel.absolute);
    assert_eq!(rel.segments, vec!["src", "a"]);
    let remote = FsPath::parse("../w");
    assert_eq!(remote.join(&rel).to_path_string(), "../w/src/a");
}

#[test]
fn parent_drops_the_last_component() {
    assert_eq!(FsPath::parse("/w/Cargo.toml").parent().to_path_string(), "/w");
    assert_eq!(FsPath::parse("/w").parent().to_path_string(), "/");
    assert_eq!(FsPath::parse("x").parent().to_path_string(), "");
    assert_eq!(FsPath::parse("").parent().to_path_string(), "");
}

#[test]
fn last_segment_names_the_directory() {
    assert_eq!(FsPath::parse("/some/prefix/a").last_segment(), Some("a".to_string()));
    assert_eq!(FsPath::parse("/").last_segment(), None);
}

#[test]
fn new_project_keeps_its_fields() {
    let w = PatchProject::new(
        "a".to_string(),
        FsPath::parse("/some/prefix/a"),
        FsPath::parse("../a"),
    );
    assert_eq!(w.name, "a");
    assert_eq!(w.local_path.to_path_string(), "/some/prefix/a");
    assert_eq!(w.remote_path.to_path_string(), "../a");
}

#[test]
fn locate_output_yields_the_manifest_directory() {
    let out = workspace_root_from_locate_output("{\"root\":\"/some/prefix/a/Cargo.toml\"}");
    assert_eq!(out.unwrap().to_path_string(), "/some/prefix/a");
}

#[test]
fn locate_output_without_root_member_fails() {
    let out = workspace_root_from_locate_output("{\"other\": 3}");
    assert_eq!(out.unwrap_err(), "no root");
}

#[test]
fn malformed_locate_output_fails() {
    let out = workspace_root_from_locate_output("not json");
    assert!(out.is_err());
}
