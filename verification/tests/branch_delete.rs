#![allow(dead_code, unused_imports)]

use pancake::branch::{
    check_branch_delete, finish_branch_delete, plan_branch_create, record_created,
    restack_children, restacked_line,
};
use pancake::config::ensure_initialized;
use pancake::error::StackError;
use pancake::graph::StackMetadata;
use pancake::navigate::{bottom, down, top, up, Movement};
use pancake::operation::PendingOperation;

struct Repo {
    initialized: bool,
    branches: Vec<String>,
    head: String,
    graph: StackMetadata,
    checkpoint: Option<PendingOperation>,
}

fn new_repo(default_branch: &str) -> Repo {
    Repo {
        initialized: false,
        branches: vec![default_branch.to_string()],
        head: default_branch.to_string(),
        graph: StackMetadata::new(),
        checkpoint: None,
    }
}

fn init_pk(repo: &mut Repo) {
    repo.initialized = true;
}

fn has_branch(repo: &Repo, name: &str) -> bool {
    repo.branches.iter().any(|b| b == name)
}

fn git_checkout(repo: &mut Repo, name: &str) {
    assert!(has_branch(repo, name));
    repo.head = name.to_string();
}

fn fail(e: StackError) -> String {
    e.message()
}

fn bc(repo: &mut Repo, name: &str, base: Option<&str>) -> Result<String, String> {
    ensure_initialized(repo.initialized).map_err(fail)?;
    let base_exists = base.map(|b| has_branch(repo, b)).unwrap_or(false);
    let chosen = plan_branch_create(
        name,
        has_branch(repo, name),
        base.map(|b| b.to_string()),
        base_exists,
        Some(repo.head.clone()),
    )
    .map_err(fail)?;
    repo.branches.push(name.to_string());
    repo.head = name.to_string();
    Ok(record_created(&mut repo.graph, name, &chosen))
}

fn bd(repo: &mut Repo, name: &str) -> Result<String, String> {
    ensure_initialized(repo.initialized).map_err(fail)?;
    check_branch_delete(name, has_branch(repo, name), &Some(repo.head.clone())).map_err(fail)?;
    let parent = repo.graph.get_parent(name);
    let children = restack_children(&mut repo.graph, name);
    let mut out = String::new();
    for child in &children {
        out.push_str(&restacked_line(child, &parent));
        out.push('\n');
    }
    repo.branches.retain(|b| b != name);
    out.push_str(&finish_branch_delete(&mut repo.graph, name, children.len()));
    Ok(out)
}

fn go(repo: &mut Repo, moved: Result<Movement, StackError>) -> Result<String, String> {
    let m = moved.map_err(fail)?;
    if m.checkout {
        git_checkout(repo, &m.target);
    }
    Ok(m.line)
}

fn pk_up(repo: &mut Repo, count: usize) -> Result<String, String> {
    ensure_initialized(repo.initialized).map_err(fail)?;
    let moved = up(&repo.graph, &repo.head, count);
    go(repo, moved)
}

fn pk_down(repo: &mut Repo, count: usize) -> Result<String, String> {
    ensure_initialized(repo.initialized).map_err(fail)?;
    let moved = down(&repo.graph, &repo.head, count);
    go(repo, moved)
}

fn pk_top(repo: &mut Repo) -> Result<String, String> {
    ensure_initialized(repo.initialized).map_err(fail)?;
    let moved = top(&repo.graph, &repo.head);
    go(repo, moved)
}

fn pk_bottom(repo: &mut Repo) -> Result<String, String> {
    ensure_initialized(repo.initialized).map_err(fail)?;
    let moved = bottom(&repo.graph, &repo.head);
    go(repo, moved)
}

#[test]
fn branch_delete_requires_init() {
    let mut repo = new_repo("main");
    let err = bd(&mut repo, "feature/test").unwrap_err();
    assert!(err.contains("Pancake is not initialized"));
}

#[test]
fn branch_delete_simple_branch() {
    let mut repo = new_repo("main");
    init_pk(&mut repo);
    bc(&mut repo, "feature/to-delete", None).unwrap();
    git_checkout(&mut repo, "main");
    let out = bd(&mut repo, "feature/to-delete").unwrap();
    assert!(out.contains("Deleted branch 'feature/to-delete'"));
    assert!(!has_branch(&repo, "feature/to-delete"));
    assert!(!repo.graph.contains("feature/to-delete"));
}

#[test]
fn branch_delete_rejects_nonexistent_branch() {
    let mut repo = new_repo("main");
    init_pk(&mut repo);
    let err = bd(&mut repo, "nonexistent").unwrap_err();
    assert!(err.contains("Branch 'nonexistent' does not exist"));
}

#[test]
fn branch_delete_rejects_current_branch() {
    let mut repo = new_repo("main");
    init_pk(&mut repo);
    bc(&mut repo, "feature/current", None).unwrap();
    let err = bd(&mut repo, "feature/current").unwrap_err();
    assert!(err.contains("Cannot delete the currently checked out branch"));
}

#[test]
fn branch_delete_restacks_single_child() {
    let mut repo = new_repo("main");
    init_pk(&mut repo);
    bc(&mut repo, "feature/first", None).unwrap();
    bc(&mut repo, "feature/second", None).unwrap();
    git_checkout(&mut repo, "main");
    let out = bd(&mut repo, "feature/first").unwrap();
    assert!(out.contains("Deleted branch 'feature/first' and restacked 1 child branch(es)"));
    assert!(out.contains("Restacked 'feature/second' onto 'main'"));
    assert_eq!(
        repo.graph.get_parent("feature/second").as_deref(),
        Some("main"),
        "second should now be based on main"
    );
    assert!(!repo.graph.contains("feature/first"));
}

#[test]
fn branch_delete_restacks_multiple_children() {
    let mut repo = new_repo("main");
    init_pk(&mut repo);
    bc(&mut repo, "feature/parent", None).unwrap();
    bc(&mut repo, "feature/child1", None).unwrap();
    git_checkout(&mut repo, "feature/parent");
    bc(&mut repo, "feature/child2", None).unwrap();
    git_checkout(&mut repo, "main");
    let out = bd(&mut repo, "feature/parent").unwrap();
    assert!(out.contains("Deleted branch 'feature/parent' and restacked 2 child branch(es)"));
    assert_eq!(
        repo.graph.get_parent("feature/child1").as_deref(),
        Some("main"),
        "child1 should now be based on main"
    );
    assert_eq!(
        repo.graph.get_parent("feature/child2").as_deref(),
        Some("main"),
        "child2 should now be based on main"
    );
    assert!(!has_branch(&repo, "feature/parent"));
    assert_eq!(
        repo.graph.get_children("main"),
        vec!["feature/child1", "feature/child2"]
    );
}

#[test]
fn branch_delete_alias_works() {
    let mut repo = new_repo("main");
    init_pk(&mut repo);
    bc(&mut repo, "feature/alias-test", None).unwrap();
    git_checkout(&mut repo, "main");
    let out = bd(&mut repo, "feature/alias-test").unwrap();
    assert!(out.contains("Deleted branch 'feature/alias-test'"));
    assert!(!has_branch(&repo, "feature/alias-test"));
}

#[test]
fn bd_top_level_alias_works() {
    let mut repo = new_repo("main");
    init_pk(&mut repo);
    bc(&mut repo, "feature/bd-test", None).unwrap();
    git_checkout(&mut repo, "main");
    let out = bd(&mut repo, "feature/bd-test").unwrap();
    assert!(out.contains("Deleted branch 'feature/bd-test'"));
    assert!(!has_branch(&repo, "feature/bd-test"));
}

#[test]
fn deleting_a_root_makes_its_children_roots() {
    let mut g = StackMetadata::new();
    g.add_branch_at("root".to_string(), None, "t0".to_string());
    g.add_branch_at("kid".to_string(), Some("root".to_string()), "t1".to_string());
    let moved = restack_children(&mut g, "root");
    assert_eq!(moved, vec!["kid"]);
    assert_eq!(g.get_parent("kid"), None);
    assert_eq!(g.get_created_at("kid").as_deref(), Some("t1"));
    assert_eq!(restacked_line("kid", &None), "Restacked 'kid' onto 'main'");
    assert_eq!(finish_branch_delete(&mut g, "root", 0), "Deleted branch 'root'");
    assert_eq!(g.len(), 1);
}

#[test]
fn removing_a_branch_keeps_it_as_recorded_parent() {
    let mut g = StackMetadata::new();
    g.add_branch_at("a".to_string(), Some("main".to_string()), "t".to_string());
    g.add_branch_at("b".to_string(), Some("a".to_string()), "t".to_string());
    g.remove_branch("a");
    assert!(!g.contains("a"));
    assert_eq!(g.get_parent("b").as_deref(), Some("a"));
    g.update_parent("missing", Some("x".to_string()));
    assert_eq!(g.len(), 1);
}
