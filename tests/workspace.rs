use meta_workspace::editor::CrateEditor;
use meta_workspace::version::Version;
use meta_workspace::workspace::{bump_all, meta_document};

#[test]
fn test_workspace_integration() {
    let texts = [
        r#"[package]
name = "crate_a"
version = "0.1.0"
edition = "2021"

[dependencies]
"#,
        r#"[package]
name = "crate_b"
version = "0.1.0"
edition = "2021"

[dependencies]
crate_a = { git = "https://github.com/foo/crate_a", tag = "v0.1.0" }
start-up = "1.0"
special-package = { path = "../crate_c", version = "0.1.0" }
"#,
        r#"[package]
name = "special-package"
version = "0.1.0"
edition = "2021"
"#,
    ];
    let mut editors: Vec<CrateEditor> = texts.iter().map(|t| CrateEditor::new(t).unwrap()).collect();
    let new_version = Version::parse("0.2.0").unwrap();
    assert!(bump_all(&mut editors, &new_version).is_empty());

    let crate_a_toml = editors[0].save();
    assert!(crate_a_toml.contains(r#"version = "0.2.0""#));
    let crate_b_toml = editors[1].save();
    assert!(crate_b_toml.contains(r#"version = "0.2.0""#));
    assert!(crate_b_toml.contains(r#"crate_a = { git = "https://github.com/foo/crate_a", tag = "v0.2.0" }"#));
    assert!(crate_b_toml.contains(r#"special-package = { path = "../crate_c", version = "0.2.0" }"#));
    assert!(crate_b_toml.contains(r#"start-up = "1.0""#));
}

#[test]
fn bump_all_skips_manifests_without_package() {
    let mut editors = vec![
        CrateEditor::new("[dependencies]\na = \"0.1.0\"\n").unwrap(),
        CrateEditor::new("[package]\nname = \"a\"\nversion = \"0.1.0\"\n").unwrap(),
        CrateEditor::new("[package]\nname = \"b\"\nversion = \"0.1.0\"\n[dependencies]\na = \"0.1.0\"\n").unwrap(),
    ];
    let skipped = bump_all(&mut editors, &Version::parse("0.2.0").unwrap());
    assert_eq!(skipped, vec![0]);
    assert_eq!(editors[0].save(), "[dependencies]\na = \"0.1.0\"\n");
    assert!(editors[1].save().contains(r#"version = "0.2.0""#));
    assert!(editors[2].save().contains(r#"a = "0.2.0""#));
    assert!(!editors[2].save().contains("0.1.0"));
}

#[test]
fn meta_document_lists_members_sorted_once() {
    let found = vec!["crate_y".to_string(), "crate_x".to_string(), "crate_y".to_string()];
    let text = meta_document(&found).unwrap();
    assert!(text.contains(r#""crate_x""#));
    assert!(text.contains(r#""crate_y""#));
    assert!(text.find("crate_x").unwrap() < text.find("crate_y").unwrap());
    assert_eq!(text.matches("crate_y").count(), 1);
    assert!(text.contains("[workspace]"));
    assert!(meta_document(&Vec::new()).is_none());
}
