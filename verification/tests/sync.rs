#![allow(dead_code, unused_imports)]

use pancake::branch::{
    check_branch_delete, finish_branch_delete, plan_branch_create, record_created,
    restack_children, restacked_line,
};
use pancake::config::ensure_initialized;
use pancake::error::StackError;
use pancake::graph::StackMetadata;
use pancake::navigate::{bottom, down, top, up, Movement};
use pancake::operation::PendingOperation;
use pancake::gitout::{checkout_git_branch, rebase_outcome, run_git_checked, GitOutput};
use pancake::operation::{
    abort_operation, continue_operation, finalize_operation, plan_step, rebasing_line,
    record_outcome, select_restack_mode, select_sync_mode, start_operation, CommandMode,
    RebaseOutcome, Step,
};
use pancake::error::OperationKind;

struct Repo {
    initialized: bool,
    branches: Vec<String>,
    head: String,
    graph: StackMetadata,
    checkpoint: Option<PendingOperation>,
}

fn new_repo(default_branch: &str) -> Repo {
    Repo {
        initialized: false,
        branches: vec![default_branch.to_string()],
        head: default_branch.to_string(),
        graph: StackMetadata::new(),
        checkpoint: None,
    }
}

fn init_pk(repo: &mut Repo) {
    repo.initialized = true;
}

fn has_branch(repo: &Repo, name: &str) -> bool {
    repo.branches.iter().any(|b| b == name)
}

fn git_checkout(repo: &mut Repo, name: &str) {
    assert!(has_branch(repo, name));
    repo.head = name.to_string();
}

fn fail(e: StackError) -> String {
    e.message()
}

fn bc(repo: &mut Repo, name: &str, base: Option<&str>) -> Result<String, String> {
    ensure_initialized(repo.initialized).map_err(fail)?;
    let base_exists = base.map(|b| has_branch(repo, b)).unwrap_or(false);
    let chosen = plan_branch_create(
        name,
        has_branch(repo, name),
        base.map(|b| b.to_string()),
        base_exists,
        Some(repo.head.clone()),
    )
    .map_err(fail)?;
    repo.branches.push(name.to_string());
    repo.head = name.to_string();
    Ok(record_created(&mut repo.graph, name, &chosen))
}

fn bd(repo: &mut Repo, name: &str) -> Result<String, String> {
    ensure_initialized(repo.initialized).map_err(fail)?;
    check_branch_delete(name, has_branch(repo, name), &Some(repo.head.clone())).map_err(fail)?;
    let parent = repo.graph.get_parent(name);
    let children = restack_children(&mut repo.graph, name);
    let mut out = String::new();
    for child in &children {
        out.push_str(&restacked_line(child, &parent));
        out.push('\n');
    }
    repo.branches.retain(|b| b != name);
    out.push_str(&finish_branch_delete(&mut repo.graph, name, children.len()));
    Ok(out)
}

fn go(repo: &mut Repo, moved: Result<Movement, StackError>) -> Result<String, String> {
    let m = moved.map_err(fail)?;
    if m.checkout {
        git_checkout(repo, &m.target);
    }
    Ok(m.line)
}

fn pk_up(repo: &mut Repo, count: usize) -> Result<String, String> {
    ensure_initialized(repo.initialized).map_err(fail)?;
    let moved = up(&repo.graph, &repo.head, count);
    go(repo, moved)
}

fn pk_down(repo: &mut Repo, count: usize) -> Result<String, String> {
    ensure_initialized(repo.initialized).map_err(fail)?;
    let moved = down(&repo.graph, &repo.head, count);
    go(repo, moved)
}

fn pk_top(repo: &mut Repo) -> Result<String, String> {
    ensure_initialized(repo.initialized).map_err(fail)?;
    let moved = top(&repo.graph, &repo.head);
    go(repo, moved)
}

fn pk_bottom(repo: &mut Repo) -> Result<String, String> {
    ensure_initialized(repo.initialized).map_err(fail)?;
    let moved = bottom(&repo.graph, &repo.head);
    go(repo, moved)
}

struct Git {
    rebased: Vec<(String, String)>,
    conflicts_on: Vec<String>,
}

fn ok_output() -> GitOutput {
    GitOutput { success: true, code: Some(0), stdout: String::new(), stderr: String::new() }
}

fn conflict_output() -> GitOutput {
    GitOutput {
        success: false,
        code: Some(1),
        stdout: "Auto-merging file\n".to_string(),
        stderr: "\nCONFLICT (content): Merge conflict in file\n".to_string(),
    }
}

fn process(repo: &mut Repo, git: &mut Git, out: &mut Vec<String>) -> Result<(), String> {
    loop {
        let state = repo.checkpoint.as_mut().unwrap();
        let exists = match state.current_branch() {
            Some(b) => repo.branches.iter().any(|x| *x == b),
            None => false,
        };
        match plan_step(&repo.graph, state, exists).map_err(fail)? {
            Step::Finished => return Ok(()),
            Step::Rebase { branch, onto } => {
                checkout_git_branch(&branch, &ok_output()).map_err(fail)?;
                repo.head = branch.clone();
                out.push(rebasing_line(&branch, &onto));
                let output = if git.conflicts_on.contains(&branch) {
                    conflict_output()
                } else {
                    git.rebased.push((branch.clone(), onto.clone()));
                    ok_output()
                };
                record_outcome(state, &onto, rebase_outcome(&output)).map_err(fail)?;
            }
        }
    }
}

fn finish(repo: &mut Repo, out: &mut Vec<String>) {
    let done = finalize_operation(&mut repo.checkpoint).expect("complete");
    repo.head = done.checkout;
    out.push(done.report);
}

fn run(
    repo: &mut Repo,
    git: &mut Git,
    kind: OperationKind,
    mode: CommandMode,
) -> Result<Vec<String>, String> {
    ensure_initialized(repo.initialized).map_err(fail)?;
    let mut out = Vec::new();
    match mode {
        CommandMode::Continue => {
            let resume = continue_operation(&repo.checkpoint, kind).map_err(fail)?;
            if resume {
                let state = repo.checkpoint.as_mut().unwrap();
                let branch = state.current_branch().unwrap();
                let onto = repo.graph.get_parent(&branch).unwrap();
                git.conflicts_on.retain(|b| *b != branch);
                git.rebased.push((branch, onto));
                state.advance();
                process(repo, git, &mut out)?;
            }
            finish(repo, &mut out);
        }
        CommandMode::Abort => {
            out.push(abort_operation(&mut repo.checkpoint, kind).map_err(fail)?);
        }
        CommandMode::Start { whole_stack } => {
            let head = repo.head.clone();
            start_operation(&mut repo.checkpoint, &repo.graph, kind, &head, whole_stack)
                .map_err(fail)?;
            process(repo, git, &mut out)?;
            finish(repo, &mut out);
        }
    }
    Ok(out)
}

fn pair(a: &str, b: &str) -> (String, String) {
    (a.to_string(), b.to_string())
}

#[test]
fn sync_requires_init() {
    let mut repo = new_repo("main");
    let mut git = Git { rebased: vec![], conflicts_on: vec![] };
    let mode = select_sync_mode(false, false, false, false).unwrap();
    let err = run(&mut repo, &mut git, OperationKind::Sync, mode).unwrap_err();
    assert!(err.contains("Pancake is not initialized"));
}

#[test]
fn sync_rebases_current_branch_and_children() {
    let mut repo = new_repo("main");
    init_pk(&mut repo);
    bc(&mut repo, "feature/base", None).unwrap();
    bc(&mut repo, "feature/top", None).unwrap();
    git_checkout(&mut repo, "main");
    git_checkout(&mut repo, "feature/base");
    let mut git = Git { rebased: vec![], conflicts_on: vec![] };
    let mode = select_sync_mode(false, false, false, false).unwrap();
    let out = run(&mut repo, &mut git, OperationKind::Sync, mode).unwrap();
    assert!(out.last().unwrap().contains("Synced 2 branch(es)"));
    assert_eq!(
        git.rebased,
        vec![pair("feature/base", "main"), pair("feature/top", "feature/base")]
    );
    assert_eq!(repo.head, "feature/base");
    assert!(repo.checkpoint.is_none());
}

#[test]
fn sync_all_rebases_entire_stack() {
    let mut repo = new_repo("main");
    init_pk(&mut repo);
    bc(&mut repo, "feature/first", None).unwrap();
    bc(&mut repo, "feature/second", None).unwrap();
    bc(&mut repo, "feature/third", None).unwrap();
    git_checkout(&mut repo, "main");
    git_checkout(&mut repo, "feature/third");
    let mut git = Git { rebased: vec![], conflicts_on: vec![] };
    let mode = select_sync_mode(true, false, false, false).unwrap();
    let out = run(&mut repo, &mut git, OperationKind::Sync, mode).unwrap();
    assert!(out.last().unwrap().contains("Synced 3 branch(es)"));
    assert_eq!(
        out.last().unwrap(),
        "Synced 3 branch(es): feature/first -> feature/second -> feature/third"
    );
    assert_eq!(
        git.rebased,
        vec![
            pair("feature/first", "main"),
            pair("feature/second", "feature/first"),
            pair("feature/third", "feature/second"),
        ]
    );
    assert_eq!(repo.head, "feature/third");
}

#[test]
fn restack_rebases_entire_stack() {
    let mut repo = new_repo("main");
    init_pk(&mut repo);
    bc(&mut repo, "feature/alpha", None).unwrap();
    bc(&mut repo, "feature/beta", None).unwrap();
    bc(&mut repo, "feature/gamma", None).unwrap();
    git_checkout(&mut repo, "main");
    git_checkout(&mut repo, "feature/beta");
    let mut git = Git { rebased: vec![], conflicts_on: vec![] };
    let mode = select_restack_mode(false, false).unwrap();
    let out = run(&mut repo, &mut git, OperationKind::Restack, mode).unwrap();
    assert!(out.last().unwrap().contains("Restacked 3 branch(es)"));
    assert_eq!(
        git.rebased,
        vec![
            pair("feature/alpha", "main"),
            pair("feature/beta", "feature/alpha"),
            pair("feature/gamma", "feature/beta"),
        ]
    );
    assert_eq!(repo.head, "feature/beta");
}

#[test]
fn sync_from_main_names_first_second_third() {
    let mut repo = new_repo("main");
    init_pk(&mut repo);
    bc(&mut repo, "first", None).unwrap();
    bc(&mut repo, "second", None).unwrap();
    bc(&mut repo, "third", None).unwrap();
    let mut git = Git { rebased: vec![], conflicts_on: vec![] };
    let mode = select_sync_mode(true, false, false, false).unwrap();
    let out = run(&mut repo, &mut git, OperationKind::Sync, mode).unwrap();
    assert_eq!(
        out,
        vec![
            "Rebasing 'first' onto 'main'",
            "Rebasing 'second' onto 'first'",
            "Rebasing 'third' onto 'second'",
            "Synced 3 branch(es): first -> second -> third",
        ]
    );
    assert_eq!(repo.head, "third");
}

#[test]
fn restack_twice_reports_the_same_sequence() {
    let mut repo = new_repo("main");
    init_pk(&mut repo);
    bc(&mut repo, "first", None).unwrap();
    bc(&mut repo, "second", None).unwrap();
    let mut git = Git { rebased: vec![], conflicts_on: vec![] };
    let mode = select_restack_mode(false, false).unwrap();
    let once = run(&mut repo, &mut git, OperationKind::Restack, mode).unwrap();
    let twice = run(&mut repo, &mut git, OperationKind::Restack, mode).unwrap();
    assert_eq!(once, twice);
    assert_eq!(once.last().unwrap(), "Restacked 2 branch(es): first -> second");
    assert!(repo.checkpoint.is_none());
}

#[test]
fn a_second_operation_is_refused_and_the_checkpoint_kept() {
    let mut repo = new_repo("main");
    init_pk(&mut repo);
    bc(&mut repo, "first", None).unwrap();
    bc(&mut repo, "second", None).unwrap();
    let mut git = Git { rebased: vec![], conflicts_on: vec!["second".to_string()] };
    let sync = select_sync_mode(true, false, false, false).unwrap();
    assert!(run(&mut repo, &mut git, OperationKind::Sync, sync).is_err());
    let before = format!("{:?}", repo.checkpoint);
    let restack = select_restack_mode(false, false).unwrap();
    let err = run(&mut repo, &mut git, OperationKind::Restack, restack).unwrap_err();
    assert_eq!(
        err,
        "A sync operation is already in progress. Use `pk sync --continue` or `pk sync --abort`."
    );
    let err = run(&mut repo, &mut git, OperationKind::Sync, sync).unwrap_err();
    assert!(err.contains("already in progress"));
    assert_eq!(format!("{:?}", repo.checkpoint), before);
}

#[test]
fn a_conflict_keeps_the_cursor_and_continue_moves_on() {
    let mut repo = new_repo("main");
    init_pk(&mut repo);
    bc(&mut repo, "first", None).unwrap();
    bc(&mut repo, "second", None).unwrap();
    bc(&mut repo, "third", None).unwrap();
    let mut git = Git { rebased: vec![], conflicts_on: vec!["second".to_string()] };
    let start = select_sync_mode(true, false, false, false).unwrap();
    let err = run(&mut repo, &mut git, OperationKind::Sync, start).unwrap_err();
    assert_eq!(
        err,
        "Git rebase failed while rebasing 'second' onto 'first'. Resolve the conflicts, then run `pk sync --continue` (or `pk sync --abort`).\n\nGit output:\nCONFLICT (content): Merge conflict in file"
    );
    {
        let state = repo.checkpoint.as_ref().unwrap();
        assert_eq!(state.current_index, 1);
        assert_eq!(state.branches, vec!["first", "second", "third"]);
        assert_eq!(state.original_branch, "third");
        assert_eq!(state.kind, OperationKind::Sync);
    }
    assert_eq!(git.rebased, vec![pair("first", "main")]);
    let wrong = select_restack_mode(true, false).unwrap();
    let err = run(&mut repo, &mut git, OperationKind::Restack, wrong).unwrap_err();
    assert_eq!(
        err,
        "A sync operation is in progress. Use `pk sync --continue` or `pk sync --abort`."
    );
    assert_eq!(repo.checkpoint.as_ref().unwrap().current_index, 1);
    let resume = select_sync_mode(false, false, true, false).unwrap();
    let out = run(&mut repo, &mut git, OperationKind::Sync, resume).unwrap();
    assert_eq!(
        out,
        vec!["Rebasing 'third' onto 'second'", "Synced 3 branch(es): first -> second -> third"]
    );
    assert_eq!(
        git.rebased,
        vec![pair("first", "main"), pair("second", "first"), pair("third", "second")]
    );
    assert!(repo.checkpoint.is_none());
    assert_eq!(repo.head, "third");
}

#[test]
fn abort_discards_the_checkpoint_and_stays_put() {
    let mut repo = new_repo("main");
    init_pk(&mut repo);
    bc(&mut repo, "first", None).unwrap();
    bc(&mut repo, "second", None).unwrap();
    let mut git = Git { rebased: vec![], conflicts_on: vec!["first".to_string()] };
    let start = select_restack_mode(false, false).unwrap();
    assert!(run(&mut repo, &mut git, OperationKind::Restack, start).is_err());
    assert_eq!(repo.checkpoint.as_ref().unwrap().current_index, 0);
    let wrong = select_sync_mode(false, false, false, true).unwrap();
    let err = run(&mut repo, &mut git, OperationKind::Sync, wrong).unwrap_err();
    assert_eq!(err, "A restack operation is in progress. Use `pk restack --abort`.");
    assert!(repo.checkpoint.is_some());
    let abort = select_restack_mode(false, true).unwrap();
    let out = run(&mut repo, &mut git, OperationKind::Restack, abort).unwrap();
    assert_eq!(out, vec!["Aborted restack operation."]);
    assert!(repo.checkpoint.is_none());
    assert_eq!(repo.head, "first");
    let err = run(&mut repo, &mut git, OperationKind::Restack, abort).unwrap_err();
    assert_eq!(err, "No restack operation is currently in progress.");
    let resume = select_sync_mode(false, false, true, false).unwrap();
    let err = run(&mut repo, &mut git, OperationKind::Sync, resume).unwrap_err();
    assert_eq!(err, "No sync operation is currently in progress.");
}

#[test]
fn flags_exclude_each_other() {
    assert_eq!(
        select_sync_mode(false, false, true, true).unwrap_err().message(),
        "Cannot use --continue and --abort together."
    );
    assert_eq!(
        select_sync_mode(true, false, true, false).unwrap_err().message(),
        "Cannot combine --continue/--abort with --all/--from-main."
    );
    assert_eq!(
        select_sync_mode(false, true, false, true).unwrap_err().message(),
        "Cannot combine --continue/--abort with --all/--from-main."
    );
    assert_eq!(
        select_sync_mode(false, true, false, false).unwrap(),
        CommandMode::Start { whole_stack: true }
    );
    assert_eq!(
        select_sync_mode(false, false, false, false).unwrap(),
        CommandMode::Start { whole_stack: false }
    );
    assert!(select_restack_mode(true, true).is_err());
    assert_eq!(select_restack_mode(true, false).unwrap(), CommandMode::Continue);
}

#[test]
fn a_plan_stops_at_a_missing_branch_or_parent() {
    let mut g = StackMetadata::new();
    g.add_branch_at("a".to_string(), None, "t".to_string());
    let state = PendingOperation::new(OperationKind::Sync, vec!["a".to_string()], "a".to_string());
    assert_eq!(
        plan_step(&g, &state, false).unwrap_err().message(),
        "Branch 'a' no longer exists"
    );
    assert_eq!(
        plan_step(&g, &state, true).unwrap_err().message(),
        "Branch 'a' has no recorded parent"
    );
    let mut slot = None;
    let err = start_operation(&mut slot, &g, OperationKind::Sync, "zzz", false).unwrap_err();
    assert_eq!(err.message(), "Current branch 'zzz' is not tracked by Pancake");
    assert!(slot.is_none());
    assert!(finalize_operation(&mut slot).is_none());
    let mut busy = Some(state);
    assert!(finalize_operation(&mut busy).is_none());
    assert!(busy.is_some());
}

#[test]
fn a_fatal_failure_leaves_the_cursor() {
    let mut state = PendingOperation::new(
        OperationKind::Restack,
        vec!["a".to_string(), "b".to_string()],
        "b".to_string(),
    );
    let failed = GitOutput {
        success: false,
        code: Some(128),
        stdout: String::new(),
        stderr: "fatal: not a branch\n".to_string(),
    };
    let args = vec!["rebase".to_string(), "--continue".to_string()];
    let err = run_git_checked(&args, &failed).unwrap_err();
    assert_eq!(
        err.message(),
        "`git rebase --continue` failed with exit code 128.\n\nGit stderr:\nfatal: not a branch"
    );
    let err = checkout_git_branch("a", &failed).unwrap_err();
    let text = err.message();
    assert!(text.starts_with("`git checkout a` failed with exit code 128."));
    let r = record_outcome(&mut state, "main", RebaseOutcome::Fatal { diagnostics: text.clone() });
    assert_eq!(r.unwrap_err().message(), text);
    assert_eq!(state.current_index, 0);
    assert!(record_outcome(&mut state, "main", RebaseOutcome::Success).is_ok());
    assert_eq!(state.current_index, 1);
}

#[test]
fn tool_output_is_reported_trimmed() {
    let quiet = GitOutput { success: false, code: None, stdout: "  \n".to_string(), stderr: String::new() };
    let args = vec!["status".to_string()];
    assert_eq!(run_git_checked(&args, &quiet).unwrap_err().message(), "`git status` failed.");
    let loud = GitOutput {
        success: false,
        code: Some(-2),
        stdout: "\t out \u{3000}\n".to_string(),
        stderr: " \n".to_string(),
    };
    assert_eq!(
        run_git_checked(&args, &loud).unwrap_err().message(),
        "`git status` failed with exit code -2.\n\nGit stdout:\nout"
    );
    match rebase_outcome(&loud) {
        RebaseOutcome::Conflict { diagnostics } => assert_eq!(diagnostics, "out"),
        other => panic!("unexpected {:?}", other),
    }
    assert!(run_git_checked(&args, &ok_output()).is_ok());
}
