//! The version-control operations applied to each repository, as decisions.
//!
//! Each operation is a short exchange with the version-control tool: run a
//! command, look at how it went, then run another or finish. `next_step` makes
//! those decisions; running the commands is left to the caller.
use vstd::prelude::*;
use crate::repo::texts;

verus! {

/// One operation on one repository.
pub enum GitOp {
    /// Switch to the branch `name`, creating it where checking it out fails.
    Branch { name: String },
    /// Check out the branch `name`.
    Checkout { name: String },
    /// Merge `branch` into the current branch.
    Merge { branch: String },
    /// Stage exactly `files` (paths relative to the repository) and commit them.
    Commit { message: String, files: Vec<String> },
    /// Push the current branch to `origin`, setting it as upstream.
    Push,
    /// Pull the current branch from `origin`.
    Pull,
    /// Fetch from `origin`.
    Fetch,
    /// Create the tag `v` + `version`.
    Tag { version: String },
    /// Push the tag `v` + `version` to `origin`.
    PushTag { version: String },
    /// Delete the branch `name` locally, and on `origin` where `remote` holds.
    RemoveBranch { name: String, remote: bool },
    /// Delete the tag `name` locally, and on `origin` where `remote` holds.
    RemoveTag { name: String, remote: bool },
}

/// How one command went: whether it succeeded, and what it printed.
pub struct Outcome {
    pub success: bool,
    pub stdout: String,
}

/// What to do next.
pub enum Step {
    /// Run the tool with these arguments, then ask again with its outcome.
    Run(Vec<String>),
    /// The operation is over: `Ok`, or `Err` with the arguments of the command that failed.
    Done(Result<(), Vec<String>>),
}

/// The view of a step: the arguments to run, or the end with the arguments of
/// the failed command, if one failed.
pub enum StepView {
    Run(Seq<Seq<char>>),
    Done(Option<Seq<Seq<char>>>),
}

impl Step {
    pub open spec fn view(&self) -> StepView {
        match self {
            Step::Run(args) => StepView::Run(texts(args@)),
            Step::Done(Ok(())) => StepView::Done(None),
            Step::Done(Err(args)) => StepView::Done(Some(texts(args@))),
        }
    }
}

/// What a text is with surrounding whitespace taken off.
pub uninterp spec fn trimmed(s: Seq<char>) -> Seq<char>;

/// Relies on `str::trim`: the text without leading and trailing whitespace.
#[verifier::external_body]
fn trim_text(s: &str) -> (r: String)
    ensures
        r@ == trimmed(s@),
{
    s.trim().to_string()
}

/// One command; the operation ends when it has run, with its failure if it failed.
pub open spec fn single(args: Seq<Seq<char>>, outs: Seq<Outcome>) -> StepView {
    if outs.len() == 0 {
        StepView::Run(args)
    } else if outs[0].success {
        StepView::Done(None)
    } else {
        StepView::Done(Some(args))
    }
}

/// A command whose failure is ignored, then, where `remote` holds, one whose
/// failure ends the operation.
pub open spec fn local_then_remote(local: Seq<Seq<char>>, remote: bool, name: Seq<char>, outs: Seq<Outcome>) -> StepView {
    let delete = seq!["push"@, "origin"@, "--delete"@, name];
    if outs.len() == 0 {
        StepView::Run(local)
    } else if !remote {
        StepView::Done(None)
    } else {
        single(delete, outs.drop_first())
    }
}

/// A query of the current branch, then a command on it.
pub open spec fn on_current_branch(verb: Seq<Seq<char>>, outs: Seq<Outcome>) -> StepView {
    let query = seq!["rev-parse"@, "--abbrev-ref"@, "HEAD"@];
    if outs.len() == 0 {
        StepView::Run(query)
    } else if !outs[0].success {
        StepView::Done(Some(query))
    } else {
        single(verb.push(trimmed(outs[0].stdout@)), outs.drop_first())
    }
}

/// The next step of `op`, given the outcomes of the commands run so far.
pub open spec fn plan(op: GitOp, outs: Seq<Outcome>) -> StepView {
    match op {
        GitOp::Branch { name } => {
            if outs.len() == 0 {
                StepView::Run(seq!["checkout"@, name@])
            } else if outs[0].success {
                StepView::Done(None)
            } else {
                single(seq!["checkout"@, "-b"@, name@], outs.drop_first())
            }
        },
        GitOp::Checkout { name } => single(seq!["checkout"@, name@], outs),
        GitOp::Merge { branch } => single(seq!["merge"@, branch@], outs),
        GitOp::Commit { message, files } => {
            let add = seq!["add"@] + texts(files@);
            if files@.len() == 0 {
                StepView::Done(None)
            } else if outs.len() == 0 {
                StepView::Run(add)
            } else if !outs[0].success {
                StepView::Done(Some(add))
            } else {
                single(seq!["commit"@, "-m"@, message@], outs.drop_first())
            }
        },
        GitOp::Push => on_current_branch(seq!["push"@, "-u"@, "origin"@], outs),
        GitOp::Pull => on_current_branch(seq!["pull"@, "origin"@], outs),
        GitOp::Fetch => single(seq!["fetch"@, "origin"@], outs),
        GitOp::Tag { version } => single(seq!["tag"@, seq!['v'] + version@], outs),
        GitOp::PushTag { version } => single(seq!["push"@, "origin"@, seq!['v'] + version@], outs),
        GitOp::RemoveBranch { name, remote } => local_then_remote(seq!["branch"@, "-D"@, name@], remote, name@, outs),
        GitOp::RemoveTag { name, remote } => local_then_remote(seq!["tag"@, "-d"@, name@], remote, name@, outs),
    }
}

fn word(w: &str) -> (r: String)
    ensures
        r@ == w@,
{
    w.to_owned()
}

fn single_step(args: Vec<String>, outcomes: &[Outcome], first: usize) -> (r: Step)
    requires
        first <= outcomes@.len(),
    ensures
        r@ == single(texts(args@), outcomes@.subrange(first as int, outcomes@.len() as int)),
{
    if outcomes.len() == first {
        Step::Run(args)
    } else if outcomes[first].success {
        Step::Done(Ok(()))
    } else {
        Step::Done(Err(args))
    }
}

fn tag_name(version: &String) -> (r: String)
    ensures
        r@ == seq!['v'] + version@,
{
    let mut r = word("v");
    r.append(version.as_str());
    proof {
        reveal_strlit("v");
    }
    r
}

/// The next step of `op`, given the outcomes of the commands run so far.
pub fn next_step(op: &GitOp, outcomes: &[Outcome]) -> (r: Step)
    ensures
        r@ == plan(*op, outcomes@),
{
    let ghost outs = outcomes@;
    assert(outs.subrange(0, outs.len() as int) =~= outs);
    assert(outs.len() > 0 ==> outs.subrange(1, outs.len() as int) =~= outs.drop_first());
    match op {
        GitOp::Branch { name } => {
            if outcomes.len() == 0 {
                let args = vec![word("checkout"), name.clone()];
                assert(texts(args@) =~= seq!["checkout"@, name@]);
                Step::Run(args)
            } else if outcomes[0].success {
                Step::Done(Ok(()))
            } else {
                let args = vec![word("checkout"), word("-b"), name.clone()];
                assert(texts(args@) =~= seq!["checkout"@, "-b"@, name@]);
                single_step(args, outcomes, 1)
            }
        },
        GitOp::Checkout { name } => {
            let args = vec![word("checkout"), name.clone()];
            assert(texts(args@) =~= seq!["checkout"@, name@]);
            single_step(args, outcomes, 0)
        },
        GitOp::Merge { branch } => {
            let args = vec![word("merge"), branch.clone()];
            assert(texts(args@) =~= seq!["merge"@, branch@]);
            single_step(args, outcomes, 0)
        },
        GitOp::Commit { message, files } => {
            if files.len() == 0 {
                return Step::Done(Ok(()));
            }
            let mut add = vec![word("add")];
            let mut i: usize = 0;
            while i < files.len()
                invariant
                    i <= files@.len(),
                    add@.len() == i + 1,
                    texts(add@) == seq!["add"@] + texts(files@).subrange(0, i as int),
                decreases files@.len() - i,
            {
                let ghost before = add@;
                add.push(files[i].clone());
                assert forall|k: int| 0 <= k < i + 1 implies #[trigger] texts(add@)[k] == texts(before)[k] by {
                    assert(add@[k] == before[k]);
                }
                assert(texts(add@) =~= seq!["add"@] + texts(files@).subrange(0, i + 1 as int));
                i = i + 1;
            }
            assert(texts(files@).subrange(0, files@.len() as int) =~= texts(files@));
            if outcomes.len() == 0 {
                Step::Run(add)
            } else if !outcomes[0].success {
                Step::Done(Err(add))
            } else {
                let args = vec![word("commit"), word("-m"), message.clone()];
                assert(texts(args@) =~= seq!["commit"@, "-m"@, message@]);
                single_step(args, outcomes, 1)
            }
        },
        GitOp::Push => {
            let verb = vec![word("push"), word("-u"), word("origin")];
            assert(texts(verb@) =~= seq!["push"@, "-u"@, "origin"@]);
            current_branch_step(verb, outcomes)
        },
        GitOp::Pull => {
            let verb = vec![word("pull"), word("origin")];
            assert(texts(verb@) =~= seq!["pull"@, "origin"@]);
            current_branch_step(verb, outcomes)
        },
        GitOp::Fetch => {
            let args = vec![word("fetch"), word("origin")];
            assert(texts(args@) =~= seq!["fetch"@, "origin"@]);
            single_step(args, outcomes, 0)
        },
        GitOp::Tag { version } => {
            let args = vec![word("tag"), tag_name(version)];
            assert(texts(args@) =~= seq!["tag"@, seq!['v'] + version@]);
            single_step(args, outcomes, 0)
        },
        GitOp::PushTag { version } => {
            let args = vec![word("push"), word("origin"), tag_name(version)];
            assert(texts(args@) =~= seq!["push"@, "origin"@, seq!['v'] + version@]);
            single_step(args, outcomes, 0)
        },
        GitOp::RemoveBranch { name, remote } => {
            let local = vec![word("branch"), word("-D"), name.clone()];
            assert(texts(local@) =~= seq!["branch"@, "-D"@, name@]);
            remove_step(local, *remote, name, outcomes)
        },
        GitOp::RemoveTag { name, remote } => {
            let local = vec![word("tag"), word("-d"), name.clone()];
            assert(texts(local@) =~= seq!["tag"@, "-d"@, name@]);
            remove_step(local, *remote, name, outcomes)
        },
    }
}

fn current_branch_step(verb: Vec<String>, outcomes: &[Outcome]) -> (r: Step)
    ensures
        r@ == on_current_branch(texts(verb@), outcomes@),
{
    let ghost outs = outcomes@;
    let query = vec![word("rev-parse"), word("--abbrev-ref"), word("HEAD")];
    assert(texts(query@) =~= seq!["rev-parse"@, "--abbrev-ref"@, "HEAD"@]);
    if outcomes.len() == 0 {
        Step::Run(query)
    } else if !outcomes[0].success {
        Step::Done(Err(query))
    } else {
        let mut args = verb;
        let ghost before = texts(args@);
        args.push(trim_text(outcomes[0].stdout.as_str()));
        assert(texts(args@) =~= before.push(trimmed(outs[0].stdout@)));
        assert(outs.subrange(1, outs.len() as int) =~= outs.drop_first());
        single_step(args, outcomes, 1)
    }
}

fn remove_step(local: Vec<String>, remote: bool, name: &String, outcomes: &[Outcome]) -> (r: Step)
    ensures
        r@ == local_then_remote(texts(local@), remote, name@, outcomes@),
{
    let ghost outs = outcomes@;
    if outcomes.len() == 0 {
        Step::Run(local)
    } else if !remote {
        Step::Done(Ok(()))
    } else {
        let args = vec![word("push"), word("origin"), word("--delete"), name.clone()];
        assert(texts(args@) =~= seq!["push"@, "origin"@, "--delete"@, name@]);
        assert(outs.subrange(1, outs.len() as int) =~= outs.drop_first());
        single_step(args, outcomes, 1)
    }
}

/// Committing an empty list of files runs nothing and succeeds.
pub proof fn lemma_empty_commit_is_noop(message: String, files: Vec<String>, outs: Seq<Outcome>)
    requires
        files@.len() == 0,
    ensures
        plan(GitOp::Commit { message, files }, outs) == StepView::Done(None),
{
}

/// Removing a branch: a failed local removal is no error, and ends the
/// operation where no remote removal was asked for; a failed remote removal is
/// the operation's error.
pub proof fn lemma_remove_branch_failures(name: String, remote: bool, local: Outcome, pushed: Outcome)
    requires
        !local.success,
    ensures
        !remote ==> plan(GitOp::RemoveBranch { name, remote }, seq![local]) == StepView::Done(None),
        remote ==> plan(GitOp::RemoveBranch { name, remote }, seq![local])
            == StepView::Run(seq!["push"@, "origin"@, "--delete"@, name@]),
        remote && !pushed.success ==> plan(GitOp::RemoveBranch { name, remote }, seq![local, pushed])
            == StepView::Done(Some(seq!["push"@, "origin"@, "--delete"@, name@])),
{
    assert(seq![local, pushed].drop_first() =~= seq![pushed]);
    assert(seq![local].drop_first() =~= Seq::<Outcome>::empty());
}

} // verus!
