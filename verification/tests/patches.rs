use remote_patches::fspath::FsPath;
use remote_patches::manifest::extract_patched_crates_and_adjust_toml;
use remote_patches::manifest::rewrite_manifest_text;
use remote_patches::plan::rewrite_patch_values;
use remote_patches::plan::PatchError;

fn fake_locator(p: &FsPath) -> Result<FsPath, String> {
    if p.starts_with(&FsPath::parse("/some/prefix/a")) {
        return Ok(FsPath::parse("/some/prefix/a"));
    } else if p.starts_with(&FsPath::parse("/some/prefix/b")) {
        return Ok(FsPath::parse("/some/prefix/b"));
    }
    Err("Invalid Path".to_string())
}

#[test]
fn simple_modification_replaces_path() {
    let input = r#"
"hello" = 'toml!'
[patch.a]
a-crate = { path = "/some/prefix/a/src/a-crate" }
a-other-crate = { path = "/some/prefix/a/src/subfolder/a-other-crate" }
git-patched-crate = { git = "https://some-url/test/test" }
[patch.b]
b-crate = { path = "/some/prefix/b/src/b-crate" }
b-other-crate = { path = "/some/prefix/b/src/subfolder/b-other-crate" }
git-patched-crate = { git = "https://some-url/test/test" }
"#
    .to_string();
    let expect = r#"
"hello" = 'toml!'
[patch.a]
a-crate = { path = "../a/src/a-crate" }
a-other-crate = { path = "../a/src/subfolder/a-other-crate" }
git-patched-crate = { git = "https://some-url/test/test" }
[patch.b]
b-crate = { path = "../b/src/b-crate" }
b-other-crate = { path = "../b/src/subfolder/b-other-crate" }
git-patched-crate = { git = "https://some-url/test/test" }
"#
    .to_string();

    let result = extract_patched_crates_and_adjust_toml(input, |p: &FsPath| fake_locator(p))
        .unwrap()
        .unwrap();
    assert_eq!(result.0.to_string(), expect);
}

#[test]
fn end_to_end_plan_names_each_workspace_once() {
    let input = r#"
[patch.a]
a-crate = { path = "/some/prefix/a/src/a-crate" }
a-other-crate = { path = "/some/prefix/a/src/subfolder/a-other-crate" }
[patch.b]
b-crate = { path = "/some/prefix/b/src/b-crate" }
"#
    .to_string();
    let (text, projects) = rewrite_manifest_text(input, |p: &FsPath| fake_locator(p))
        .unwrap()
        .unwrap();
    assert!(text.contains("path = \"../a/src/a-crate\""));
    assert!(text.contains("path = \"../a/src/subfolder/a-other-crate\""));
    assert!(text.contains("path = \"../b/src/b-crate\""));
    assert_eq!(projects.len(), 2);
    assert_eq!(projects[0].name, "a");
    assert_eq!(projects[1].name, "b");
    assert_eq!(projects[0].local_path.to_path_string(), "/some/prefix/a");
    assert_eq!(projects[1].local_path.to_path_string(), "/some/prefix/b");
    assert_eq!(projects[0].remote_path.to_path_string(), "../a");
    assert_eq!(projects[1].remote_path.to_path_string(), "../b");
}

#[test]
fn no_patch_section_is_a_no_op() {
    let input = "[package]\nname = \"demo\"\n".to_string();
    let r = rewrite_manifest_text(input, |_p: &FsPath| -> Result<FsPath, String> {
        unreachable!()
    })
    .unwrap();
    assert!(r.is_none());
}

#[test]
fn empty_patch_section_yields_empty_plan_and_same_text() {
    let input = "[package]\nname = \"demo\"\n\n[patch]\n".to_string();
    let (text, projects) = rewrite_manifest_text(input.clone(), |_p: &FsPath| -> Result<
        FsPath,
        String,
    > {
        unreachable!()
    })
    .unwrap()
    .unwrap();
    assert_eq!(text, input);
    assert_eq!(projects.len(), 0);
}

#[test]
fn single_workspace_is_deduplicated() {
    let values = vec![
        Some("/w/src/a".to_string()),
        Some("/w/src/sub/b".to_string()),
    ];
    let locate = |p: &FsPath| -> Result<FsPath, String> {
        if p.starts_with(&FsPath::parse("/w")) {
            Ok(FsPath::parse("/w"))
        } else {
            Err("no workspace".to_string())
        }
    };
    let (out, ws) = rewrite_patch_values(&values, locate).unwrap();
    assert_eq!(ws.len(), 1);
    assert_eq!(ws[0].name, "w");
    assert_eq!(ws[0].local_path.to_path_string(), "/w");
    assert_eq!(ws[0].remote_path.to_path_string(), "../w");
    assert_eq!(out[0].as_deref(), Some("../w/src/a"));
    assert_eq!(out[1].as_deref(), Some("../w/src/sub/b"));
}

#[test]
fn distinct_workspaces_stay_isolated() {
    let values = vec![Some("/a/x".to_string()), Some("/b/y".to_string())];
    let locate = |p: &FsPath| -> Result<FsPath, String> {
        if p.starts_with(&FsPath::parse("/a")) {
            Ok(FsPath::parse("/a"))
        } else if p.starts_with(&FsPath::parse("/b")) {
            Ok(FsPath::parse("/b"))
        } else {
            Err("no workspace".to_string())
        }
    };
    let (out, ws) = rewrite_patch_values(&values, locate).unwrap();
    assert_eq!(ws.len(), 2);
    assert_eq!(ws[0].remote_path.to_path_string(), "../a");
    assert_eq!(ws[1].remote_path.to_path_string(), "../b");
    assert_eq!(out[0].as_deref(), Some("../a/x"));
    assert_eq!(out[1].as_deref(), Some("../b/y"));
    assert!(!out[0].as_deref().unwrap().contains("b"));
    assert!(!out[1].as_deref().unwrap().contains("a"));
}

#[test]
fn entries_without_path_never_reach_the_locator() {
    let values = vec![None, None];
    let (out, ws) = rewrite_patch_values(&values, |_p: &FsPath| -> Result<FsPath, String> {
        unreachable!()
    })
    .unwrap();
    let expected: Vec<Option<String>> = vec![None, None];
    assert_eq!(out, expected);
    assert_eq!(ws.len(), 0);
}

#[test]
fn git_patch_entries_pass_through_unchanged() {
    let input = r#"[patch.crates-io]
left = { git = "https://example.invalid/left" }
right = { git = "https://example.invalid/right", branch = "dev" }
"#
    .to_string();
    let (text, projects) = rewrite_manifest_text(input.clone(), |_p: &FsPath| -> Result<
        FsPath,
        String,
    > {
        unreachable!()
    })
    .unwrap()
    .unwrap();
    assert_eq!(text, input);
    assert_eq!(projects.len(), 0);
}

#[test]
fn formatting_outside_path_values_is_preserved() {
    let input = r#"# leading comment
[package]
name   =   "demo"   # spacing kept

[patch.one]
# a patched crate
thing = { path = "/w/crates/thing", version = "1.0" }
other = { git = "https://example.invalid/o" }

[profile.release]
lto = true
"#
    .to_string();
    let expect = r#"# leading comment
[package]
name   =   "demo"   # spacing kept

[patch.one]
# a patched crate
thing = { path = "../w/crates/thing", version = "1.0" }
other = { git = "https://example.invalid/o" }

[profile.release]
lto = true
"#
    .to_string();
    let locate = |p: &FsPath| -> Result<FsPath, String> {
        if p.starts_with(&FsPath::parse("/w")) {
            Ok(FsPath::parse("/w"))
        } else {
            Err("no workspace".to_string())
        }
    };
    let (text, projects) = rewrite_manifest_text(input, locate).unwrap().unwrap();
    assert_eq!(text, expect);
    assert_eq!(projects.len(), 1);
}

#[test]
fn similarly_named_sibling_is_not_merged() {
    let values = vec![
        Some("/foo/bar/inner".to_string()),
        Some("/foo/bar2".to_string()),
    ];
    let locate = |p: &FsPath| -> Result<FsPath, String> {
        if p.starts_with(&FsPath::parse("/foo/bar2")) {
            Ok(FsPath::parse("/foo/bar2"))
        } else if p.starts_with(&FsPath::parse("/foo/bar")) {
            Ok(FsPath::parse("/foo/bar"))
        } else {
            Err("no workspace".to_string())
        }
    };
    let (out, ws) = rewrite_patch_values(&values, locate).unwrap();
    assert_eq!(ws.len(), 2);
    assert_eq!(ws[0].name, "bar");
    assert_eq!(ws[1].name, "bar2");
    assert_eq!(out[0].as_deref(), Some("../bar/inner"));
    assert_eq!(out[1].as_deref(), Some("../bar2"));
}

#[test]
fn leading_byte_order_mark_is_consumed_by_the_parser() {
    let input = "\u{feff}[package]\nname = \"demo\"\n\n[patch]\n".to_string();
    let (text, projects) = rewrite_manifest_text(input, |_p: &FsPath| -> Result<FsPath, String> {
        unreachable!()
    })
    .unwrap()
    .unwrap();
    assert_eq!(text, "[package]\nname = \"demo\"\n\n[patch]\n");
    assert_eq!(projects.len(), 0);
}

#[test]
fn unparsable_manifest_reports_parse_error() {
    let input = "not = toml = at all [".to_string();
    let r = rewrite_manifest_text(input, |_p: &FsPath| -> Result<FsPath, String> {
        unreachable!()
    });
    assert!(matches!(r, Err(PatchError::ManifestParse(_))));
}

#[test]
fn unlocatable_workspace_reports_the_path() {
    let values = vec![Some("/nowhere/crate".to_string())];
    let r = rewrite_patch_values(&values, |_p: &FsPath| -> Result<FsPath, String> {
        Err("Invalid Path".to_string())
    });
    match r {
        Err(PatchError::WorkspaceNotFound { path, message }) => {
            assert_eq!(path, "/nowhere/crate");
            assert_eq!(message, "Invalid Path");
        },
        other => panic!("unexpected result: {:?}", other),
    }
}

#[test]
fn root_outside_the_path_is_rejected() {
    let values = vec![Some("/w/crate".to_string())];
    let r = rewrite_patch_values(&values, |_p: &FsPath| -> Result<FsPath, String> {
        Ok(FsPath::parse("/elsewhere"))
    });
    match r {
        Err(PatchError::InvalidWorkspaceRoot { path, root }) => {
            assert_eq!(path, "/w/crate");
            assert_eq!(root, "/elsewhere");
        },
        other => panic!("unexpected result: {:?}", other),
    }
}

#[test]
fn patch_path_equal_to_workspace_root_lands_at_remote_root() {
    let values = vec![Some("/w".to_string())];
    let locate = |p: &FsPath| -> Result<FsPath, String> {
        if p.starts_with(&FsPath::parse("/w")) {
            Ok(FsPath::parse("/w"))
        } else {
            Err("no workspace".to_string())
        }
    };
    let (out, ws) = rewrite_patch_values(&values, locate).unwrap();
    assert_eq!(ws.len(), 1);
    assert_eq!(out[0].as_deref(), Some("../w"));
}
