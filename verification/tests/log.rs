#![allow(dead_code, unused_imports)]

use pancake::branch::{
    check_branch_delete, finish_branch_delete, plan_branch_create, record_created,
    restack_children, restacked_line,
};
use pancake::config::ensure_initialized;
use pancake::error::StackError;
use pancake::graph::StackMetadata;
use pancake::navigate::{bottom, down, top, up, Movement};
use pancake::operation::PendingOperation;
use pancake::forest::{build_branch_node, build_stack_forest, collect_paths, StackRoot};
use pancake::render::{line_string, path_string, render_full_view, render_short_view};

struct Repo {
    initialized: bool,
    branches: Vec<String>,
    head: String,
    graph: StackMetadata,
    checkpoint: Option<PendingOperation>,
}

fn new_repo(default_branch: &str) -> Repo {
    Repo {
        initialized: false,
        branches: vec![default_branch.to_string()],
        head: default_branch.to_string(),
        graph: StackMetadata::new(),
        checkpoint: None,
    }
}

fn init_pk(repo: &mut Repo) {
    repo.initialized = true;
}

fn has_branch(repo: &Repo, name: &str) -> bool {
    repo.branches.iter().any(|b| b == name)
}

fn git_checkout(repo: &mut Repo, name: &str) {
    assert!(has_branch(repo, name));
    repo.head = name.to_string();
}

fn fail(e: StackError) -> String {
    e.message()
}

fn bc(repo: &mut Repo, name: &str, base: Option<&str>) -> Result<String, String> {
    ensure_initialized(repo.initialized).map_err(fail)?;
    let base_exists = base.map(|b| has_branch(repo, b)).unwrap_or(false);
    let chosen = plan_branch_create(
        name,
        has_branch(repo, name),
        base.map(|b| b.to_string()),
        base_exists,
        Some(repo.head.clone()),
    )
    .map_err(fail)?;
    repo.branches.push(name.to_string());
    repo.head = name.to_string();
    Ok(record_created(&mut repo.graph, name, &chosen))
}

fn bd(repo: &mut Repo, name: &str) -> Result<String, String> {
    ensure_initialized(repo.initialized).map_err(fail)?;
    check_branch_delete(name, has_branch(repo, name), &Some(repo.head.clone())).map_err(fail)?;
    let parent = repo.graph.get_parent(name);
    let children = restack_children(&mut repo.graph, name);
    let mut out = String::new();
    for child in &children {
        out.push_str(&restacked_line(child, &parent));
        out.push('\n');
    }
    repo.branches.retain(|b| b != name);
    out.push_str(&finish_branch_delete(&mut repo.graph, name, children.len()));
    Ok(out)
}

fn go(repo: &mut Repo, moved: Result<Movement, StackError>) -> Result<String, String> {
    let m = moved.map_err(fail)?;
    if m.checkout {
        git_checkout(repo, &m.target);
    }
    Ok(m.line)
}

fn pk_up(repo: &mut Repo, count: usize) -> Result<String, String> {
    ensure_initialized(repo.initialized).map_err(fail)?;
    let moved = up(&repo.graph, &repo.head, count);
    go(repo, moved)
}

fn pk_down(repo: &mut Repo, count: usize) -> Result<String, String> {
    ensure_initialized(repo.initialized).map_err(fail)?;
    let moved = down(&repo.graph, &repo.head, count);
    go(repo, moved)
}

fn pk_top(repo: &mut Repo) -> Result<String, String> {
    ensure_initialized(repo.initialized).map_err(fail)?;
    let moved = top(&repo.graph, &repo.head);
    go(repo, moved)
}

fn pk_bottom(repo: &mut Repo) -> Result<String, String> {
    ensure_initialized(repo.initialized).map_err(fail)?;
    let moved = bottom(&repo.graph, &repo.head);
    go(repo, moved)
}

fn pk_log(repo: &Repo, short: bool) -> Result<String, String> {
    ensure_initialized(repo.initialized).map_err(fail)?;
    if repo.graph.is_empty() {
        return Ok("No tracked stacks yet. Create one with `pk branch create <name>`.".to_string());
    }
    let forest = build_stack_forest(&repo.graph);
    let mut lines: Vec<String> = Vec::new();
    if short {
        for root in &forest {
            for path in render_short_view(root) {
                lines.push(path_string(&path));
            }
        }
    } else {
        let mut stack = 0;
        for line in render_full_view(&forest) {
            if line.stack != stack {
                lines.push(String::new());
                stack = line.stack;
            }
            lines.push(line_string(&line));
        }
    }
    Ok(lines.join("\n"))
}

fn two_stacks() -> Repo {
    let mut repo = new_repo("main");
    init_pk(&mut repo);
    bc(&mut repo, "feature/first", None).unwrap();
    bc(&mut repo, "feature/second", None).unwrap();
    git_checkout(&mut repo, "main");
    bc(&mut repo, "bugfix/hotfix", None).unwrap();
    git_checkout(&mut repo, "main");
    repo
}

#[test]
fn log_requires_init() {
    let repo = new_repo("main");
    let err = pk_log(&repo, false).unwrap_err();
    assert!(err.contains("Pancake is not initialized"));
}

#[test]
fn log_notifies_when_empty() {
    let mut repo = new_repo("main");
    init_pk(&mut repo);
    let out = pk_log(&repo, false).unwrap();
    assert!(out.contains("No tracked stacks yet"));
}

#[test]
fn log_displays_all_stacks_in_ascii_tree() {
    let repo = two_stacks();
    let out = pk_log(&repo, false).unwrap();
    assert!(out.contains("main\n|-- bugfix/hotfix\n`-- feature/first\n    `-- feature/second"));
}

#[test]
fn log_short_view_lists_paths() {
    let repo = two_stacks();
    let out = pk_log(&repo, true).unwrap();
    assert!(out.contains("main -> bugfix/hotfix\nmain -> feature/first -> feature/second"));
}

#[test]
fn forest_puts_external_parents_before_standalone_roots() {
    let mut g = StackMetadata::new();
    let t = "2024-01-01T00:00:00+00:00";
    g.add_branch_at("solo".to_string(), None, t.to_string());
    g.add_branch_at("on-solo".to_string(), Some("solo".to_string()), t.to_string());
    g.add_branch_at("z-feature".to_string(), Some("main".to_string()), t.to_string());
    g.add_branch_at("a-feature".to_string(), Some("main".to_string()), t.to_string());
    g.add_branch_at("fix".to_string(), Some("develop".to_string()), t.to_string());
    g.add_branch_at("alone".to_string(), None, t.to_string());
    let forest = build_stack_forest(&g);
    let mut shape: Vec<String> = Vec::new();
    for root in &forest {
        match root {
            StackRoot::ExternalParent { name, children } => {
                let kids: Vec<&str> = children.iter().map(|c| c.name.as_str()).collect();
                shape.push(format!("ext {} {:?}", name, kids));
            }
            StackRoot::Standalone { node } => {
                let kids: Vec<&str> = node.children.iter().map(|c| c.name.as_str()).collect();
                shape.push(format!("solo {} {:?}", node.name, kids));
            }
        }
    }
    assert_eq!(
        shape,
        vec![
            "ext develop [\"fix\"]",
            "ext main [\"a-feature\", \"z-feature\"]",
            "solo alone []",
            "solo solo [\"on-solo\"]",
        ]
    );
    let text: Vec<String> = render_full_view(&forest).iter().map(line_string).collect();
    assert_eq!(
        text,
        vec![
            "develop",
            "`-- fix",
            "main",
            "|-- a-feature",
            "`-- z-feature",
            "alone",
            "solo",
            "`-- on-solo",
        ]
    );
}

#[test]
fn deep_trees_carry_their_prefix_down() {
    let mut g = StackMetadata::new();
    for (name, parent) in [("a", "main"), ("b", "a"), ("c", "b"), ("d", "a"), ("e", "main")] {
        g.add_branch_at(name.to_string(), Some(parent.to_string()), "t".to_string());
    }
    let forest = build_stack_forest(&g);
    let text: Vec<String> = render_full_view(&forest).iter().map(line_string).collect();
    assert_eq!(
        text,
        vec!["main", "|-- a", "|   |-- b", "|   |   `-- c", "|   `-- d", "`-- e"]
    );
    let paths: Vec<String> = render_short_view(&forest[0]).iter().map(path_string).collect();
    assert_eq!(paths, vec!["main -> a -> b -> c", "main -> a -> d", "main -> e"]);
}

#[test]
fn paths_follow_a_prefix() {
    let mut g = StackMetadata::new();
    g.add_branch_at("a".to_string(), Some("main".to_string()), "t".to_string());
    g.add_branch_at("b".to_string(), Some("a".to_string()), "t".to_string());
    let node = build_branch_node("a", &g, g.len());
    let mut out: Vec<Vec<String>> = vec![vec!["kept".to_string()]];
    collect_paths(&node, vec!["start".to_string()], &mut out);
    assert_eq!(out, vec![vec!["kept"], vec!["start", "a", "b"]]);
    let cut = build_branch_node("a", &g, 0);
    assert!(cut.children.is_empty());
}

#[test]
fn a_deleted_branch_leaves_its_children_side_by_side() {
    let mut repo = new_repo("main");
    init_pk(&mut repo);
    bc(&mut repo, "feature/parent", None).unwrap();
    bc(&mut repo, "feature/child1", None).unwrap();
    git_checkout(&mut repo, "feature/parent");
    bc(&mut repo, "feature/child2", None).unwrap();
    git_checkout(&mut repo, "main");
    bd(&mut repo, "feature/parent").unwrap();
    let out = pk_log(&repo, false).unwrap();
    assert_eq!(out, "main\n|-- feature/child1\n`-- feature/child2");
}
