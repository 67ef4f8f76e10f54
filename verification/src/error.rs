//! What can go wrong, and the text shown for each failure.

use vstd::prelude::*;
use crate::text::{decimal, decimal_string};

verus! {

/// The two bulk operations.
#[derive(Clone, Copy, Debug, PartialEq, Eq, Structural)]
pub enum OperationKind {
    Sync,
    Restack,
}

impl OperationKind {
    /// The operation's name as text.
    pub open spec fn name_text(&self) -> Seq<char> {
        match self {
            OperationKind::Sync => "sync"@,
            OperationKind::Restack => "restack"@,
        }
    }

    /// The command that runs the operation, as text.
    pub open spec fn command_text(&self) -> Seq<char> {
        match self {
            OperationKind::Sync => "pk sync"@,
            OperationKind::Restack => "pk restack"@,
        }
    }

    /// The word that reports the finished operation, as text.
    pub open spec fn past_tense_text(&self) -> Seq<char> {
        match self {
            OperationKind::Sync => "Synced"@,
            OperationKind::Restack => "Restacked"@,
        }
    }

    /// The operation's name.
    pub fn name(&self) -> (r: &'static str)
        ensures
            r@ == self.name_text(),
    {
        match self {
            OperationKind::Sync => "sync",
            OperationKind::Restack => "restack",
        }
    }

    /// The command that runs the operation.
    pub fn command_name(&self) -> (r: &'static str)
        ensures
            r@ == self.command_text(),
    {
        match self {
            OperationKind::Sync => "pk sync",
            OperationKind::Restack => "pk restack",
        }
    }

    /// The word that reports the finished operation.
    pub fn past_tense(&self) -> (r: &'static str)
        ensures
            r@ == self.past_tense_text(),
    {
        match self {
            OperationKind::Sync => "Synced",
            OperationKind::Restack => "Restacked",
        }
    }
}

/// Every failure that a command reports.
#[derive(Debug)]
pub enum StackError {
    /// The repository has no configuration yet.
    NotInitialized,
    /// The repository has a configuration at `path` already.
    AlreadyInitialized { path: String },
    /// A commit was asked for without a message.
    MissingCommitMessage,
    /// The named branch does not exist.
    BranchNotFound { branch: String },
    /// The branch given as base does not exist.
    BaseBranchNotFound { branch: String },
    /// A branch of that name exists already.
    BranchAlreadyExists { branch: String },
    /// The branch to delete is the one checked out.
    DeletingCurrentBranch { branch: String },
    /// The checked-out branch is not in the graph.
    UntrackedCurrentBranch { branch: String },
    /// No branch is checked out; `choosing_base` tells whether a base
    /// for a new branch was looked for.
    DetachedHead { choosing_base: bool },
    /// Moving down `requested` branches from `branch` stopped after
    /// `moved`: the next parent is absent or not in the graph.
    NoParentInStack { branch: String, requested: usize, moved: usize },
    /// Moving up `requested` branches from `branch` stopped after `moved`
    /// at a branch without children.
    NoChildrenInStack { branch: String, requested: usize, moved: usize },
    /// Moving up `requested` branches met `branch`, which has several
    /// children.
    AmbiguousChildren { branch: String, requested: usize, children: Vec<String> },
    /// A bulk operation is in progress already.
    OperationAlreadyInProgress { kind: OperationKind },
    /// The operation in progress is of the other kind; `aborting` tells
    /// whether an abort or a continue was asked for.
    OperationKindMismatch { active: OperationKind, aborting: bool },
    /// No bulk operation is in progress.
    NoOperationInProgress { kind: OperationKind },
    /// Both resuming and aborting were asked for.
    ContinueWithAbort,
    /// Resuming or aborting was asked for together with a scope.
    ResumeWithScope,
    /// The plan that starts at `start` is empty.
    NothingToProcess { kind: OperationKind, start: String },
    /// A branch of the plan exists no longer.
    BranchMissing { branch: String },
    /// A branch of the plan has no recorded parent.
    NoRecordedParent { branch: String },
    /// Rebasing `branch` onto `parent` stopped on a conflict.
    RebaseConflict { branch: String, parent: String, kind: OperationKind, diagnostics: String },
    /// The version-control tool failed.
    ExternalToolFailure { diagnostics: String },
}

/// The text "Cannot move `direction` `requested` branches (only moved
/// `moved`)".
pub open spec fn partial_move_text(direction: Seq<char>, requested: nat, moved: nat) -> Seq<
    char,
> {
    "Cannot move "@ + direction + " "@ + decimal(requested) + " branches (only moved "@ + decimal(
        moved,
    ) + ")"@
}

/// The text that tells which operation is in progress and how to go on.
pub open spec fn in_progress_text(kind: OperationKind, state: Seq<char>, aborting: bool) -> Seq<
    char,
> {
    if aborting {
        "A "@ + kind.name_text() + state + " Use `"@ + kind.command_text() + " --abort`."@
    } else {
        "A "@ + kind.name_text() + state + " Use `"@ + kind.command_text() + " --continue` or `"@
            + kind.command_text() + " --abort`."@
    }
}

/// The text of a stopped rebase: what was rebased onto what, how to go
/// on, and what the tool printed, if anything.
pub open spec fn conflict_text(
    branch: Seq<char>,
    parent: Seq<char>,
    kind: OperationKind,
    diagnostics: Seq<char>,
) -> Seq<char> {
    let head = "Git rebase failed while rebasing '"@ + branch + "' onto '"@ + parent
        + "'. Resolve the conflicts, then run `"@ + kind.command_text() + " --continue` (or `"@
        + kind.command_text() + " --abort`)."@;
    if diagnostics.len() == 0 {
        head
    } else {
        head + "\n\nGit output:\n"@ + diagnostics
    }
}

/// `prefix`, `middle` and `suffix` in one string.
pub fn wrap_text(prefix: &str, middle: &str, suffix: &str) -> (r: String)
    ensures
        r@ == prefix@ + middle@ + suffix@,
{
    String::from_str(prefix).concat(middle).concat(suffix)
}

fn partial_move_message(direction: &str, requested: usize, moved: usize) -> (r: String)
    ensures
        r@ == partial_move_text(direction@, requested as nat, moved as nat),
{
    let a = decimal_string(requested);
    let b = decimal_string(moved);
    String::from_str("Cannot move ").concat(direction).concat(" ").concat(a.as_str()).concat(
        " branches (only moved ",
    ).concat(b.as_str()).concat(")")
}

fn in_progress_message(kind: OperationKind, state: &str, aborting: bool) -> (r: String)
    ensures
        r@ == in_progress_text(kind, state@, aborting),
{
    let head = String::from_str("A ").concat(kind.name()).concat(state).concat(" Use `").concat(
        kind.command_name(),
    );
    if aborting {
        head.concat(" --abort`.")
    } else {
        head.concat(" --continue` or `").concat(kind.command_name()).concat(" --abort`.")
    }
}

impl StackError {
    /// The text shown for this failure.
    pub open spec fn message_text(&self) -> Seq<char> {
        match self {
            StackError::NotInitialized => "Pancake is not initialized. Run `pk init` first."@,
            StackError::AlreadyInitialized { path } => "Pancake is already initialized at "@
                + path@
                + "\nUse `pk init --force` to overwrite the existing configuration."@,
            StackError::MissingCommitMessage =>
                "Commit message is required. Use `-m <message>` to provide one."@,
            StackError::BranchNotFound { branch } => "Branch '"@ + branch@ + "' does not exist"@,
            StackError::BaseBranchNotFound { branch } => "Base branch '"@ + branch@
                + "' does not exist"@,
            StackError::BranchAlreadyExists { branch } => "Branch '"@ + branch@
                + "' already exists"@,
            StackError::DeletingCurrentBranch { branch } =>
                "Cannot delete the currently checked out branch '"@ + branch@ + "'"@,
            StackError::UntrackedCurrentBranch { branch } => "Current branch '"@ + branch@
                + "' is not tracked by Pancake"@,
            StackError::DetachedHead { choosing_base } => if *choosing_base {
                "HEAD is not currently on a branch. Cannot determine base branch."@
            } else {
                "HEAD is not currently on a branch"@
            },
            StackError::NoParentInStack { branch, requested, moved } => if *moved == 0 {
                "Branch '"@ + branch@ + "' has no parent in the stack"@
            } else {
                partial_move_text("down"@, *requested as nat, *moved as nat)
            },
            StackError::NoChildrenInStack { branch, requested, moved } => if *moved == 0 {
                "Branch '"@ + branch@ + "' has no children in the stack"@
            } else {
                partial_move_text("up"@, *requested as nat, *moved as nat)
            },
            StackError::AmbiguousChildren { branch, requested, children } => if *requested > 1 {
                "Branch '"@ + branch@
                    + "' has multiple children. Cannot automatically navigate up "@ + decimal(
                    *requested as nat,
                ) + " branches."@
            } else {
                "Multiple children found. Interactive selection not yet implemented.\nUse `pk checkout <branch-name>` to select a specific branch."@
            },
            StackError::OperationAlreadyInProgress { kind } => in_progress_text(
                *kind,
                " operation is already in progress."@,
                false,
            ),
            StackError::OperationKindMismatch { active, aborting } => in_progress_text(
                *active,
                " operation is in progress."@,
                *aborting,
            ),
            StackError::NoOperationInProgress { kind } => "No "@ + kind.name_text()
                + " operation is currently in progress."@,
            StackError::ContinueWithAbort => "Cannot use --continue and --abort together."@,
            StackError::ResumeWithScope =>
                "Cannot combine --continue/--abort with --all/--from-main."@,
            StackError::NothingToProcess { kind, start } => "No tracked branches to "@
                + kind.name_text() + " starting from '"@ + start@ + "'"@,
            StackError::BranchMissing { branch } => "Branch '"@ + branch@ + "' no longer exists"@,
            StackError::NoRecordedParent { branch } => "Branch '"@ + branch@
                + "' has no recorded parent"@,
            StackError::RebaseConflict { branch, parent, kind, diagnostics } => conflict_text(
                branch@,
                parent@,
                *kind,
                diagnostics@,
            ),
            StackError::ExternalToolFailure { diagnostics } => diagnostics@,
        }
    }

    /// The text shown for this failure.
    pub fn message(&self) -> (r: String)
        ensures
            r@ == self.message_text(),
    {
        match self {
            StackError::NotInitialized => String::from_str(
                "Pancake is not initialized. Run `pk init` first.",
            ),
            StackError::AlreadyInitialized { path } => wrap_text(
                "Pancake is already initialized at ",
                path.as_str(),
                "\nUse `pk init --force` to overwrite the existing configuration.",
            ),
            StackError::MissingCommitMessage => String::from_str(
                "Commit message is required. Use `-m <message>` to provide one.",
            ),
            StackError::BranchNotFound { branch } => wrap_text(
                "Branch '",
                branch.as_str(),
                "' does not exist",
            ),
            StackError::BaseBranchNotFound { branch } => wrap_text(
                "Base branch '",
                branch.as_str(),
                "' does not exist",
            ),
            StackError::BranchAlreadyExists { branch } => wrap_text(
                "Branch '",
                branch.as_str(),
                "' already exists",
            ),
            StackError::DeletingCurrentBranch { branch } => wrap_text(
                "Cannot delete the currently checked out branch '",
                branch.as_str(),
                "'",
            ),
            StackError::UntrackedCurrentBranch { branch } => wrap_text(
                "Current branch '",
                branch.as_str(),
                "' is not tracked by Pancake",
            ),
            StackError::DetachedHead { choosing_base } => {
                if *choosing_base {
                    String::from_str(
                        "HEAD is not currently on a branch. Cannot determine base branch.",
                    )
                } else {
                    String::from_str("HEAD is not currently on a branch")
                }
            },
            StackError::NoParentInStack { branch, requested, moved } => {
                if *moved == 0 {
                    wrap_text("Branch '", branch.as_str(), "' has no parent in the stack")
                } else {
                    partial_move_message("down", *requested, *moved)
                }
            },
            StackError::NoChildrenInStack { branch, requested, moved } => {
                if *moved == 0 {
                    wrap_text("Branch '", branch.as_str(), "' has no children in the stack")
                } else {
                    partial_move_message("up", *requested, *moved)
                }
            },
            StackError::AmbiguousChildren { branch, requested, children } => {
                if *requested > 1 {
                    let n = decimal_string(*requested);
                    wrap_text(
                        "Branch '",
                        branch.as_str(),
                        "' has multiple children. Cannot automatically navigate up ",
                    ).concat(n.as_str()).concat(" branches.")
                } else {
                    String::from_str(
                        "Multiple children found. Interactive selection not yet implemented.\nUse `pk checkout <branch-name>` to select a specific branch.",
                    )
                }
            },
            StackError::OperationAlreadyInProgress { kind } => in_progress_message(
                *kind,
                " operation is already in progress.",
                false,
            ),
            StackError::OperationKindMismatch { active, aborting } => in_progress_message(
                *active,
                " operation is in progress.",
                *aborting,
            ),
            StackError::NoOperationInProgress { kind } => wrap_text(
                "No ",
                kind.name(),
                " operation is currently in progress.",
            ),
            StackError::ContinueWithAbort => String::from_str(
                "Cannot use --continue and --abort together.",
            ),
            StackError::ResumeWithScope => String::from_str(
                "Cannot combine --continue/--abort with --all/--from-main.",
            ),
            StackError::NothingToProcess { kind, start } => wrap_text(
                "No tracked branches to ",
                kind.name(),
                " starting from '",
            ).concat(start.as_str()).concat("'"),
            StackError::BranchMissing { branch } => wrap_text(
                "Branch '",
                branch.as_str(),
                "' no longer exists",
            ),
            StackError::NoRecordedParent { branch } => wrap_text(
                "Branch '",
                branch.as_str(),
                "' has no recorded parent",
            ),
            StackError::RebaseConflict { branch, parent, kind, diagnostics } => {
                let head = wrap_text(
                    "Git rebase failed while rebasing '",
                    branch.as_str(),
                    "' onto '",
                ).concat(parent.as_str()).concat("'. Resolve the conflicts, then run `").concat(
                    kind.command_name(),
                ).concat(" --continue` (or `").concat(kind.command_name()).concat(" --abort`).");
                if diagnostics.as_str().unicode_len() == 0 {
                    head
                } else {
                    head.concat("\n\nGit output:\n").concat(diagnostics.as_str())
                }
            },
            StackError::ExternalToolFailure { diagnostics } => diagnostics.clone(),
        }
    }
}

} // verus!
