use meta_workspace::editor::{CrateEditor, ManifestError, ManifestKind};
use meta_workspace::version::Version;

fn v(text: &str) -> Version {
    Version::parse(text).expect("a valid version")
}

fn edit(text: &str) -> CrateEditor {
    CrateEditor::new(text).expect("valid TOML")
}

#[test]
fn test_bump_version() {
    let mut editor = edit(
        r#"[package]
name = "test-crate"
version = "0.1.0"

[dependencies]
other-crate = { version = "0.1.0" }
"#,
    );
    let new_version = v("0.2.0");
    editor.bump_version(&new_version).unwrap();
    let content = editor.save();
    assert!(content.contains(r#"version = "0.2.0""#));
}

#[test]
fn test_update_dependencies() {
    let mut editor = edit(
        r#"[package]
name = "my-crate"
version = "0.1.0"

[dependencies]
dep-a = { version = "0.1.0" }
dep-b = "0.1.0"
external-dep = "1.0.0"
"#,
    );
    let new_version = v("0.2.0");
    let members = vec!["dep-a".to_string(), "dep-b".to_string()];
    editor.update_dependencies(&members, &new_version).unwrap();
    let content = editor.save();
    assert!(content.contains(r#"dep-a = { version = "0.2.0" }"#));
    assert!(content.contains(r#"dep-b = "0.2.0""#));
    assert!(content.contains(r#"external-dep = "1.0.0""#));
}

#[test]
fn test_update_git_dependencies() {
    let mut editor = edit(
        r#"[package]
name = "my-crate"
version = "0.1.0"

[dependencies]
git-dep-v = { git = "https://example.com/repo", tag = "v0.1.0" }
git-dep-no-v = { git = "https://example.com/repo2", tag = "0.1.0" }
"#,
    );
    let new_version = v("0.2.0");
    let members = vec!["git-dep-v".to_string(), "git-dep-no-v".to_string()];
    editor.update_dependencies(&members, &new_version).unwrap();
    let content = editor.save();
    assert!(content.contains(r#"tag = "v0.2.0""#));
    assert!(content.contains(r#"tag = "0.2.0""#));
}

#[test]
fn test_update_git_branch_to_tag() {
    let mut editor = edit(
        r#"[package]
name = "my-crate"
version = "0.1.0"

[dependencies]
git-dep = { git = "https://example.com/repo", branch = "master" }
"#,
    );
    let new_version = v("0.2.0");
    let members = vec!["git-dep".to_string()];
    editor.update_dependencies(&members, &new_version).unwrap();
    let content = editor.save();
    assert!(!content.contains("branch"));
    assert!(content.contains(r#"tag = "v0.2.0""#));
}

#[test]
fn save_without_changes_reproduces_the_text() {
    let text = r#"# a comment
[package]
name   =   "x"   # trailing
version = "0.1.0"

[dependencies]
a = { path = "../a",version="0.1.0" }
b = "1"

[dev-dependencies.c]
version = "2"
"#;
    assert_eq!(edit(text).save(), text);
}

#[test]
fn unknown_declarations_keep_their_text() {
    let text = r#"[package]
name = "p"
version = "0.1.0"

[dependencies]
serde = { version = "1.0", features = ["derive"] }
dep-a = "0.1.0"

[build-dependencies]
cc   =   "1.0"
"#;
    let mut editor = edit(text);
    editor.update_dependencies(&["dep-a".to_string()], &v("0.3.0")).unwrap();
    let content = editor.save();
    assert!(content.contains(r#"serde = { version = "1.0", features = ["derive"] }"#));
    assert!(content.contains(r#"cc   =   "1.0""#));
    assert!(content.contains(r#"dep-a = "0.3.0""#));
    assert!(content.contains(r#"version = "0.1.0""#));
}

#[test]
fn bare_string_dependency_is_replaced() {
    let mut editor = edit("[dependencies]\n\"dep-b\" = \"0.1.0\"\n");
    editor.update_dependencies(&["dep-b".to_string()], &v("0.2.0")).unwrap();
    assert_eq!(editor.save(), "[dependencies]\n\"dep-b\" = \"0.2.0\"\n");
}

#[test]
fn inline_version_is_replaced_and_other_keys_kept() {
    let mut editor = edit("[dev-dependencies]\nx = { path = \"../x\", version = \"0.1.0\", optional = true }\n");
    editor.update_dependencies(&["x".to_string()], &v("0.2.0")).unwrap();
    assert_eq!(
        editor.save(),
        "[dev-dependencies]\nx = { path = \"../x\", version = \"0.2.0\", optional = true }\n"
    );
}

#[test]
fn tag_prefix_is_kept_or_left_out() {
    let mut editor = edit("[dependencies]\na = { git = \"g\", tag = \"v0.1.0\" }\nb = { git = \"g\", tag = \"0.1.0\" }\n");
    editor.update_dependencies(&["a".to_string(), "b".to_string()], &v("0.2.0")).unwrap();
    assert_eq!(
        editor.save(),
        "[dependencies]\na = { git = \"g\", tag = \"v0.2.0\" }\nb = { git = \"g\", tag = \"0.2.0\" }\n"
    );
}

#[test]
fn branch_becomes_tag_and_version_is_updated() {
    let mut editor = edit("[build-dependencies]\na = { git = \"g\", branch = \"master\", version = \"0.1.0\" }\n");
    editor.update_dependencies(&["a".to_string()], &v("1.0.0-rc.1")).unwrap();
    let content = editor.save();
    assert!(!content.contains("branch"));
    assert!(content.contains(r#"tag = "v1.0.0-rc.1""#));
    assert!(content.contains(r#"version = "1.0.0-rc.1""#));
}

#[test]
fn table_form_dependency_is_left_alone() {
    let text = "[dependencies.a]\nversion = \"0.1.0\"\n";
    let mut editor = edit(text);
    editor.update_dependencies(&["a".to_string()], &v("0.2.0")).unwrap();
    assert_eq!(editor.save(), text);
}

#[test]
fn invalid_toml_is_a_parse_error() {
    assert!(matches!(CrateEditor::new("[package\nname = "), Err(ManifestError::Parse(_))));
}

#[test]
fn bump_without_package_fails() {
    let mut editor = edit("[dependencies]\na = \"1\"\n");
    assert!(matches!(editor.bump_version(&v("0.2.0")), Err(ManifestError::NoPackage)));
    assert_eq!(editor.save(), "[dependencies]\na = \"1\"\n");
}

#[test]
fn package_name_and_version_are_read() {
    let editor = edit("[package]\nname = \"pkg\"\nversion = \"1.2.3-alpha+b7\"\n");
    assert_eq!(editor.get_package_name(), Some("pkg".to_string()));
    let version = editor.get_version().unwrap();
    assert_eq!((version.major, version.minor, version.patch), (1, 2, 3));
    assert_eq!(version.pre, "alpha");
    assert_eq!(version.build, "b7");
    assert_eq!(version.to_text(), "1.2.3-alpha+b7");
}

#[test]
fn missing_or_unparsable_version_is_absent() {
    assert!(edit("[package]\nname = \"pkg\"\nversion = \"one\"\n").get_version().is_none());
    assert!(edit("[package]\nname = \"pkg\"\n").get_version().is_none());
    assert!(edit("x = 1\n").get_package_name().is_none());
}

#[test]
fn version_text_is_canonical() {
    assert_eq!(v("10.0.20").to_text(), "10.0.20");
    assert!(Version::parse("1.2").is_none());
}

#[test]
fn manifest_kinds_are_told_apart() {
    match edit("[workspace]\nmembers = [\"a\", 3, \"b/*\"]\n").manifest_kind() {
        ManifestKind::Workspace(patterns) => assert_eq!(patterns, vec!["a".to_string(), "b/*".to_string()]),
        _ => panic!("expected a workspace"),
    }
    assert!(matches!(edit("[package]\nname = \"p\"\n").manifest_kind(), ManifestKind::Package));
    assert!(matches!(edit("a = 1\n").manifest_kind(), ManifestKind::Neither));
}

#[test]
fn inline_dependency_category_is_rewritten() {
    let mut editor = edit("dependencies = { a = \"0.1.0\", b = { path = \"../b\", version = \"0.1.0\" }, c = \"1\" }\n");
    editor.update_dependencies(&["a".to_string(), "b".to_string()], &v("0.2.0")).unwrap();
    let content = editor.save();
    assert!(content.contains(r#"a = "0.2.0""#));
    assert!(content.contains(r#"version = "0.2.0""#));
    assert!(content.contains(r#"path = "../b""#));
    assert!(content.contains(r#"c = "1""#));
    assert!(!content.contains("0.1.0"));
}
