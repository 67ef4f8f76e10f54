//! The configuration written when a repository is set up.

use vstd::prelude::*;
use crate::error::{wrap_text, StackError};
use crate::names::{name_seq, same_name};

verus! {

/// Which branch is the main line and which remote is used.
#[derive(Debug)]
pub struct RepositoryConfig<'a> {
    pub main_branch: &'a str,
    pub remote: &'a str,
}

/// Settings for pull requests.
#[derive(Debug)]
pub struct PrConfig<'a> {
    pub auto_submit: bool,
    pub draft_by_default: bool,
    pub template: &'a str,
}

/// Settings for stacks.
#[derive(Debug)]
pub struct StackConfig<'a> {
    pub max_depth: u32,
    pub prefix: &'a str,
}

/// Settings for the hosting service.
#[derive(Debug)]
pub struct GithubConfig {
    pub api_token: &'static str,
}

/// The whole configuration.
#[derive(Debug)]
pub struct PancakeConfig<'a> {
    pub repository: RepositoryConfig<'a>,
    pub pr: PrConfig<'a>,
    pub stack: StackConfig<'a>,
    pub github: GithubConfig,
}

impl<'a> PancakeConfig<'a> {
    /// The configuration of a fresh repository: the given main branch
    /// and remote, and the defaults for everything else.
    pub fn new(main_branch: &'a str, remote: &'a str) -> (r: Self)
        ensures
            r.repository.main_branch@ == main_branch@,
            r.repository.remote@ == remote@,
            !r.pr.auto_submit,
            !r.pr.draft_by_default,
            r.pr.template@ == ".github/pull_request_template.md"@,
            r.stack.max_depth == 10,
            r.stack.prefix@ == ""@,
            r.github.api_token@ == ""@,
    {
        PancakeConfig {
            repository: RepositoryConfig { main_branch, remote },
            pr: PrConfig {
                auto_submit: false,
                draft_by_default: false,
                template: ".github/pull_request_template.md",
            },
            stack: StackConfig { max_depth: 10, prefix: "" },
            github: GithubConfig { api_token: "" },
        }
    }
}

/// Chooses the main branch of a repository: the first of "main",
/// "master" and "develop" that exists, else the branch that HEAD names,
/// if any.
pub fn detect_main_branch(
    main_exists: bool,
    master_exists: bool,
    develop_exists: bool,
    head: Option<String>,
) -> (r: Option<String>)
    ensures
        main_exists ==> r.is_some() && r.unwrap()@ == "main"@,
        !main_exists && master_exists ==> r.is_some() && r.unwrap()@ == "master"@,
        !main_exists && !master_exists && develop_exists ==> r.is_some() && r.unwrap()@
            == "develop"@,
        !main_exists && !master_exists && !develop_exists ==> r == head,
{
    if main_exists {
        Some(String::from_str("main"))
    } else if master_exists {
        Some(String::from_str("master"))
    } else if develop_exists {
        Some(String::from_str("develop"))
    } else {
        head
    }
}

/// Chooses the remote of a repository: "origin" where it is among the
/// remotes, else the first remote, if any.
pub fn detect_remote(remotes: &Vec<String>) -> (r: Option<String>)
    ensures
        name_seq(remotes@).contains("origin"@) ==> r.is_some() && r.unwrap()@ == "origin"@,
        !name_seq(remotes@).contains("origin"@) && remotes@.len() > 0 ==> r.is_some()
            && r.unwrap()@ == remotes@[0]@,
        remotes@.len() == 0 ==> r.is_none(),
{
    let mut i: usize = 0;
    while i < remotes.len()
        invariant
            i <= remotes@.len(),
            forall|j: int| 0 <= j < i ==> remotes@[j]@ != "origin"@,
        decreases remotes@.len() - i,
    {
        if same_name(remotes[i].as_str(), "origin") {
            proof {
                assert(name_seq(remotes@)[i as int] == "origin"@);
            }
            return Some(String::from_str("origin"));
        }
        i += 1;
    }
    proof {
        if name_seq(remotes@).contains("origin"@) {
            let j = choose|j: int|
                0 <= j < name_seq(remotes@).len() && name_seq(remotes@)[j] == "origin"@;
            assert(remotes@[j]@ == "origin"@);
        }
    }
    if remotes.len() > 0 {
        Some(remotes[0].clone())
    } else {
        None
    }
}

/// Every command but the first needs the configuration to exist.
pub fn ensure_initialized(config_exists: bool) -> (r: Result<(), StackError>)
    ensures
        match r {
            Ok(_) => config_exists,
            Err(StackError::NotInitialized) => !config_exists,
            Err(_) => false,
        },
{
    if config_exists {
        Ok(())
    } else {
        Err(StackError::NotInitialized)
    }
}

/// A configuration that exists at `path` is overwritten only when that
/// is asked for.
pub fn check_init(config_exists: bool, force: bool, path: &str) -> (r: Result<(), StackError>)
    ensures
        match r {
            Ok(_) => !config_exists || force,
            Err(StackError::AlreadyInitialized { path: p }) => config_exists && !force && p@
                == path@,
            Err(_) => false,
        },
{
    if config_exists && !force {
        Err(StackError::AlreadyInitialized { path: path.to_owned() })
    } else {
        Ok(())
    }
}

/// The lines that report a repository set up.
pub fn init_report(repo: &str, main_branch: &str, remote: &str) -> (r: String)
    ensures
        r@ == "Pancake initialized.\n- repo: "@ + repo@ + "\n- main branch: "@ + main_branch@
            + "\n- remote: "@ + remote@,
{
    wrap_text("Pancake initialized.\n- repo: ", repo, "\n- main branch: ").concat(
        main_branch,
    ).concat("\n- remote: ").concat(remote)
}

/// A commit needs a message.
pub fn require_commit_message(message: Option<String>) -> (r: Result<String, StackError>)
    ensures
        match r {
            Ok(m) => message == Some(m),
            Err(StackError::MissingCommitMessage) => message.is_none(),
            Err(_) => false,
        },
{
    match message {
        Some(m) => Ok(m),
        None => Err(StackError::MissingCommitMessage),
    }
}

} // verus!
