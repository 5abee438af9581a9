use meta_workspace::order::sorted_unique;
use meta_workspace::repo::{commit_path, find_git_root, group_members_by_repo, join_path, strip_prefix, unique_roots};

fn strings(items: &[&str]) -> Vec<String> {
    items.iter().map(|s| s.to_string()).collect()
}

#[test]
fn members_in_sibling_repositories_form_two_groups() {
    let members = strings(&["a/pkg1", "a/pkg2", "b/pkg3"]);
    let roots = vec![Some("/w/a".to_string()), Some("/w/a".to_string()), Some("/w/b".to_string())];
    let grouping = group_members_by_repo(&members, &roots);
    assert_eq!(grouping.groups.len(), 2);
    assert_eq!(grouping.groups[0].root, "/w/a");
    assert_eq!(grouping.groups[0].members, strings(&["a/pkg1", "a/pkg2"]));
    assert_eq!(grouping.groups[1].root, "/w/b");
    assert_eq!(grouping.groups[1].members, strings(&["b/pkg3"]));
    assert!(grouping.missing.is_empty());
    let reversed = vec![Some("/w/b".to_string()), Some("/w/a".to_string()), Some("/w/b".to_string())];
    assert_eq!(unique_roots(&reversed), strings(&["/w/a", "/w/b"]));
}

#[test]
fn member_without_repository_is_reported_and_others_grouped() {
    let members = strings(&["a/pkg1", "loose", "b/pkg3"]);
    let roots = vec![Some("/w/a".to_string()), None, Some("/w/b".to_string())];
    let grouping = group_members_by_repo(&members, &roots);
    assert_eq!(grouping.missing, strings(&["loose"]));
    assert_eq!(grouping.groups.len(), 2);
    assert!(grouping.groups.iter().all(|g| !g.members.contains(&"loose".to_string())));
    assert_eq!(unique_roots(&roots), strings(&["/w/a", "/w/b"]));
}

#[test]
fn git_root_is_the_deepest_marked_ancestor() {
    let path = strings(&["home", "w", "a", "pkg1"]);
    assert_eq!(find_git_root(&path, &vec![false, true, false, true, false]), Some(strings(&["home", "w", "a"])));
    assert_eq!(find_git_root(&path, &vec![true, false, false, false, false]), Some(Vec::new()));
    assert_eq!(find_git_root(&path, &vec![false, false, false, false, true]), Some(path.clone()));
    assert_eq!(find_git_root(&path, &vec![false; 5]), None);
}

#[test]
fn paths_are_made_relative_to_the_repository() {
    let file = strings(&["w", "a", "pkg1", "Cargo.toml"]);
    assert_eq!(strip_prefix(&file, &strings(&["w", "a"])), Some(strings(&["pkg1", "Cargo.toml"])));
    assert_eq!(strip_prefix(&file, &strings(&["w", "b"])), None);
    assert_eq!(join_path(&strings(&["pkg1", "Cargo.toml"])), "pkg1/Cargo.toml");
    assert_eq!(commit_path(&file, &strings(&["w", "a"]), &"given".to_string()), "pkg1/Cargo.toml");
    assert_eq!(commit_path(&file, &strings(&["x"]), &"given".to_string()), "given");
}

#[test]
fn sorted_unique_orders_and_dedups() {
    let items = strings(&["b", "a", "ab", "b", "", "B"]);
    assert_eq!(sorted_unique(&items), strings(&["", "B", "a", "ab", "b"]));
    assert!(sorted_unique(&Vec::new()).is_empty());
}

#[test]
fn repeated_member_stands_once_in_its_group() {
    let members = strings(&["a/pkg1", "a/pkg1", "a/pkg2"]);
    let roots = vec![Some("/w/a".to_string()), Some("/w/a".to_string()), Some("/w/a".to_string())];
    let grouping = group_members_by_repo(&members, &roots);
    assert_eq!(grouping.groups.len(), 1);
    assert_eq!(grouping.groups[0].members, strings(&["a/pkg1", "a/pkg2"]));
}
