#![allow(dead_code, unused_imports)]

use pancake::branch::{
    check_branch_delete, finish_branch_delete, plan_branch_create, record_created,
    restack_children, restacked_line,
};
use pancake::config::ensure_initialized;
use pancake::error::StackError;
use pancake::graph::StackMetadata;
use pancake::navigate::{bottom, down, top, up, Movement};
use pancake::operation::PendingOperation;

struct Repo {
    initialized: bool,
    branches: Vec<String>,
    head: String,
    graph: StackMetadata,
    checkpoint: Option<PendingOperation>,
}

fn new_repo(default_branch: &str) -> Repo {
    Repo {
        initialized: false,
        branches: vec![default_branch.to_string()],
        head: default_branch.to_string(),
        graph: StackMetadata::new(),
        checkpoint: None,
    }
}

fn init_pk(repo: &mut Repo) {
    repo.initialized = true;
}

fn has_branch(repo: &Repo, name: &str) -> bool {
    repo.branches.iter().any(|b| b == name)
}

fn git_checkout(repo: &mut Repo, name: &str) {
    assert!(has_branch(repo, name));
    repo.head = name.to_string();
}

fn fail(e: StackError) -> String {
    e.message()
}

fn bc(repo: &mut Repo, name: &str, base: Option<&str>) -> Result<String, String> {
    ensure_initialized(repo.initialized).map_err(fail)?;
    let base_exists = base.map(|b| has_branch(repo, b)).unwrap_or(false);
    let chosen = plan_branch_create(
        name,
        has_branch(repo, name),
        base.map(|b| b.to_string()),
        base_exists,
        Some(repo.head.clone()),
    )
    .map_err(fail)?;
    repo.branches.push(name.to_string());
    repo.head = name.to_string();
    Ok(record_created(&mut repo.graph, name, &chosen))
}

fn bd(repo: &mut Repo, name: &str) -> Result<String, String> {
    ensure_initialized(repo.initialized).map_err(fail)?;
    check_branch_delete(name, has_branch(repo, name), &Some(repo.head.clone())).map_err(fail)?;
    let parent = repo.graph.get_parent(name);
    let children = restack_children(&mut repo.graph, name);
    let mut out = String::new();
    for child in &children {
        out.push_str(&restacked_line(child, &parent));
        out.push('\n');
    }
    repo.branches.retain(|b| b != name);
    out.push_str(&finish_branch_delete(&mut repo.graph, name, children.len()));
    Ok(out)
}

fn go(repo: &mut Repo, moved: Result<Movement, StackError>) -> Result<String, String> {
    let m = moved.map_err(fail)?;
    if m.checkout {
        git_checkout(repo, &m.target);
    }
    Ok(m.line)
}

fn pk_up(repo: &mut Repo, count: usize) -> Result<String, String> {
    ensure_initialized(repo.initialized).map_err(fail)?;
    let moved = up(&repo.graph, &repo.head, count);
    go(repo, moved)
}

fn pk_down(repo: &mut Repo, count: usize) -> Result<String, String> {
    ensure_initialized(repo.initialized).map_err(fail)?;
    let moved = down(&repo.graph, &repo.head, count);
    go(repo, moved)
}

fn pk_top(repo: &mut Repo) -> Result<String, String> {
    ensure_initialized(repo.initialized).map_err(fail)?;
    let moved = top(&repo.graph, &repo.head);
    go(repo, moved)
}

fn pk_bottom(repo: &mut Repo) -> Result<String, String> {
    ensure_initialized(repo.initialized).map_err(fail)?;
    let moved = bottom(&repo.graph, &repo.head);
    go(repo, moved)
}

#[test]
fn branch_create_requires_init() {
    let mut repo = new_repo("main");
    let err = bc(&mut repo, "feature/test", None).unwrap_err();
    assert!(err.contains("Pancake is not initialized"));
}

#[test]
fn branch_create_from_current_branch() {
    let mut repo = new_repo("main");
    init_pk(&mut repo);
    let out = bc(&mut repo, "feature/new-branch", None).unwrap();
    assert!(out.contains("Created branch 'feature/new-branch' based on 'main'"));
    assert!(has_branch(&repo, "feature/new-branch"));
    assert!(repo.graph.contains("feature/new-branch"), "branch metadata should exist");
    assert_eq!(
        repo.graph.get_parent("feature/new-branch").as_deref(),
        Some("main"),
        "parent should be main"
    );
    assert!(
        repo.graph.get_created_at("feature/new-branch").is_some(),
        "should have created_at timestamp"
    );
    assert_eq!(repo.head, "feature/new-branch");
}

#[test]
fn branch_create_with_base_option() {
    let mut repo = new_repo("main");
    init_pk(&mut repo);
    bc(&mut repo, "feature/first", None).unwrap();
    let out = bc(&mut repo, "feature/second", Some("main")).unwrap();
    assert!(out.contains("Created branch 'feature/second' based on 'main'"));
    assert_eq!(repo.graph.get_parent("feature/second").as_deref(), Some("main"));
}

#[test]
fn branch_create_stacked_branches() {
    let mut repo = new_repo("main");
    init_pk(&mut repo);
    bc(&mut repo, "feature/first", None).unwrap();
    let out = bc(&mut repo, "feature/second", None).unwrap();
    assert!(out.contains("Created branch 'feature/second' based on 'feature/first'"));
    let out = bc(&mut repo, "feature/third", None).unwrap();
    assert!(out.contains("Created branch 'feature/third' based on 'feature/second'"));
    assert_eq!(repo.graph.get_parent("feature/first").as_deref(), Some("main"));
    assert_eq!(repo.graph.get_parent("feature/second").as_deref(), Some("feature/first"));
    assert_eq!(repo.graph.get_parent("feature/third").as_deref(), Some("feature/second"));
}

#[test]
fn branch_create_rejects_existing_branch() {
    let mut repo = new_repo("main");
    init_pk(&mut repo);
    bc(&mut repo, "feature/test", None).unwrap();
    let err = bc(&mut repo, "feature/test", None).unwrap_err();
    assert!(err.contains("Branch 'feature/test' already exists"));
}

#[test]
fn branch_create_rejects_nonexistent_base() {
    let mut repo = new_repo("main");
    init_pk(&mut repo);
    let err = bc(&mut repo, "feature/test", Some("nonexistent")).unwrap_err();
    assert!(err.contains("Base branch 'nonexistent' does not exist"));
}

#[test]
fn branch_create_alias_works() {
    let mut repo = new_repo("main");
    init_pk(&mut repo);
    let out = bc(&mut repo, "feature/alias-test", None).unwrap();
    assert!(out.contains("Created branch 'feature/alias-test'"));
    assert!(has_branch(&repo, "feature/alias-test"));
}

#[test]
fn bc_top_level_alias_works() {
    let mut repo = new_repo("main");
    init_pk(&mut repo);
    let out = bc(&mut repo, "feature/bc-test", None).unwrap();
    assert!(out.contains("Created branch 'feature/bc-test'"));
    assert!(has_branch(&repo, "feature/bc-test"));
    assert_eq!(repo.graph.get_parent("feature/bc-test").as_deref(), Some("main"));
}

#[test]
fn branch_create_without_a_checked_out_branch_fails() {
    let err = plan_branch_create("feature/x", false, None, false, None).unwrap_err();
    assert_eq!(
        err.message(),
        "HEAD is not currently on a branch. Cannot determine base branch."
    );
}

#[test]
fn branch_create_reports_the_whole_line() {
    let mut g = StackMetadata::new();
    let line = record_created(&mut g, "feature/a", "main");
    assert_eq!(line, "Created branch 'feature/a' based on 'main' and switched to it");
    let stamp = g.get_created_at("feature/a").unwrap();
    assert!(stamp.len() >= 20 && stamp.contains('T'));
}
