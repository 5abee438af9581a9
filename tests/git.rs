use meta_workspace::git::{next_step, GitOp, Outcome, Step};

fn strings(items: &[&str]) -> Vec<String> {
    items.iter().map(|s| s.to_string()).collect()
}

fn ok(stdout: &str) -> Outcome {
    Outcome { success: true, stdout: stdout.to_string() }
}

fn failed() -> Outcome {
    Outcome { success: false, stdout: String::new() }
}

fn run_args(step: Step) -> Vec<String> {
    match step {
        Step::Run(args) => args,
        Step::Done(_) => panic!("expected a command"),
    }
}

#[test]
fn empty_commit_runs_nothing() {
    let op = GitOp::Commit { message: "m".to_string(), files: Vec::new() };
    assert!(matches!(next_step(&op, &[]), Step::Done(Ok(()))));
}

#[test]
fn commit_stages_exactly_the_given_files() {
    let op = GitOp::Commit { message: "update cargo".to_string(), files: strings(&["Cargo.toml"]) };
    assert_eq!(run_args(next_step(&op, &[])), strings(&["add", "Cargo.toml"]));
    assert_eq!(run_args(next_step(&op, &[ok("")])), strings(&["commit", "-m", "update cargo"]));
    assert!(matches!(next_step(&op, &[ok(""), ok("")]), Step::Done(Ok(()))));
    match next_step(&op, &[failed()]) {
        Step::Done(Err(args)) => assert_eq!(args, strings(&["add", "Cargo.toml"])),
        _ => panic!("expected a failure"),
    }
}

#[test]
fn removing_a_missing_local_branch_is_no_error() {
    let op = GitOp::RemoveBranch { name: "feature".to_string(), remote: false };
    assert_eq!(run_args(next_step(&op, &[])), strings(&["branch", "-D", "feature"]));
    assert!(matches!(next_step(&op, &[failed()]), Step::Done(Ok(()))));
}

#[test]
fn failed_remote_branch_removal_is_an_error() {
    let op = GitOp::RemoveBranch { name: "feature".to_string(), remote: true };
    assert_eq!(run_args(next_step(&op, &[failed()])), strings(&["push", "origin", "--delete", "feature"]));
    match next_step(&op, &[failed(), failed()]) {
        Step::Done(Err(args)) => assert_eq!(args, strings(&["push", "origin", "--delete", "feature"])),
        _ => panic!("expected a failure"),
    }
    assert!(matches!(next_step(&op, &[failed(), ok("")]), Step::Done(Ok(()))));
}

#[test]
fn branch_is_created_where_checkout_fails() {
    let op = GitOp::Branch { name: "feature-x".to_string() };
    assert_eq!(run_args(next_step(&op, &[])), strings(&["checkout", "feature-x"]));
    assert!(matches!(next_step(&op, &[ok("")]), Step::Done(Ok(()))));
    assert_eq!(run_args(next_step(&op, &[failed()])), strings(&["checkout", "-b", "feature-x"]));
    assert!(matches!(next_step(&op, &[failed(), failed()]), Step::Done(Err(_))));
}

#[test]
fn push_uses_the_trimmed_current_branch() {
    let op = GitOp::Push;
    assert_eq!(run_args(next_step(&op, &[])), strings(&["rev-parse", "--abbrev-ref", "HEAD"]));
    assert_eq!(run_args(next_step(&op, &[ok(" main\n")])), strings(&["push", "-u", "origin", "main"]));
    assert_eq!(run_args(next_step(&GitOp::Pull, &[ok("dev\n")])), strings(&["pull", "origin", "dev"]));
    assert!(matches!(next_step(&op, &[failed()]), Step::Done(Err(_))));
}

#[test]
fn tags_take_a_v_prefix() {
    let tag = GitOp::Tag { version: "1.2.3".to_string() };
    assert_eq!(run_args(next_step(&tag, &[])), strings(&["tag", "v1.2.3"]));
    let push = GitOp::PushTag { version: "1.2.3".to_string() };
    assert_eq!(run_args(next_step(&push, &[])), strings(&["push", "origin", "v1.2.3"]));
    let remove = GitOp::RemoveTag { name: "v1.2.3".to_string(), remote: false };
    assert_eq!(run_args(next_step(&remove, &[])), strings(&["tag", "-d", "v1.2.3"]));
    assert_eq!(run_args(next_step(&GitOp::Fetch, &[])), strings(&["fetch", "origin"]));
    let merge = GitOp::Merge { branch: "dev".to_string() };
    assert_eq!(run_args(next_step(&merge, &[])), strings(&["merge", "dev"]));
    assert!(matches!(next_step(&merge, &[failed()]), Step::Done(Err(_))));
}
