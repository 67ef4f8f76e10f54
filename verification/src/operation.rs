//! The resumable bulk operation: a checkpoint that holds the plan and a
//! cursor into it, and the decisions that move it from start to finish
//! across conflicts.

use vstd::prelude::*;
use crate::error::{wrap_text, OperationKind, StackError};
use crate::graph::{opt_name, StackMetadata};
use crate::names::name_seq;
use crate::plan::{branch_sequence, collect_branch_sequence};
use crate::text::{decimal, decimal_string, join_names, joined};

verus! {

/// The checkpoint of a bulk operation in progress.
#[derive(Debug)]
pub struct PendingOperation {
    pub kind: OperationKind,
    pub branches: Vec<String>,
    pub current_index: usize,
    pub original_branch: String,
}

/// The checkpoint as plain values.
pub struct OperationView {
    pub kind: OperationKind,
    pub branches: Seq<Seq<char>>,
    pub current_index: nat,
    pub original_branch: Seq<char>,
}

impl View for PendingOperation {
    type V = OperationView;

    open spec fn view(&self) -> OperationView {
        OperationView {
            kind: self.kind,
            branches: name_seq(self.branches@),
            current_index: self.current_index as nat,
            original_branch: self.original_branch@,
        }
    }
}

/// What a rebase step came to.
#[derive(Debug)]
pub enum RebaseOutcome {
    /// The branch sits on its new base.
    Success,
    /// The rebase stopped and waits for the conflicts to be resolved.
    Conflict { diagnostics: String },
    /// A step before the rebase failed.
    Fatal { diagnostics: String },
}

/// What to do next for an operation in progress.
#[derive(Debug)]
pub enum Step {
    /// Check out `branch` and rebase it onto `onto`.
    Rebase { branch: String, onto: String },
    /// Every branch of the plan is done.
    Finished,
}

/// How a command that may resume or abort was invoked.
#[derive(Clone, Copy, Debug, PartialEq, Eq, Structural)]
pub enum CommandMode {
    /// Start a new operation; `whole_stack` asks to begin at the bottom
    /// of the stack.
    Start { whole_stack: bool },
    /// Resume the operation in progress.
    Continue,
    /// Abort the operation in progress.
    Abort,
}

/// What to do once an operation is complete.
#[derive(Debug)]
pub struct Completion {
    /// The branch to check out again.
    pub checkout: String,
    /// The line that reports the operation.
    pub report: String,
}

/// The checkpoint with its cursor moved past the branch it stands on; a
/// cursor behind the plan stays there.
pub open spec fn advanced(op: OperationView) -> OperationView {
    OperationView {
        kind: op.kind,
        branches: op.branches,
        current_index: if op.current_index < op.branches.len() {
            op.current_index + 1
        } else {
            op.current_index
        },
        original_branch: op.original_branch,
    }
}

/// The checkpoint after a rebase step: moved on after a success, as it
/// was after a conflict or a failure.
pub open spec fn after_outcome(op: OperationView, success: bool) -> OperationView {
    if success {
        advanced(op)
    } else {
        op
    }
}

/// The branch that the next step takes up, if any is left.
pub open spec fn next_branch(op: OperationView) -> Option<Seq<char>> {
    if op.current_index < op.branches.len() {
        Some(op.branches[op.current_index as int])
    } else {
        None
    }
}

/// The report of a finished operation: the word for its kind, how many
/// branches, and their names in order.
pub open spec fn report_text(op: OperationView) -> Seq<char> {
    op.kind.past_tense_text() + " "@ + decimal(op.branches.len()) + " branch(es): "@ + joined(
        op.branches,
        " -> "@,
    )
}

impl PendingOperation {
    /// The cursor lies within the plan or just behind it.
    pub open spec fn wf(&self) -> bool {
        self.current_index <= self.branches@.len()
    }

    /// A checkpoint for a plan of which nothing is done yet.
    pub fn new(kind: OperationKind, branches: Vec<String>, original_branch: String) -> (r: Self)
        ensures
            r.wf(),
            r.kind == kind,
            r.branches == branches,
            r.current_index == 0,
            r.original_branch == original_branch,
    {
        PendingOperation { kind, branches, current_index: 0, original_branch }
    }

    /// Whether every branch of the plan is done.
    pub fn is_complete(&self) -> (r: bool)
        ensures
            r == (self.current_index >= self.branches@.len()),
    {
        self.current_index >= self.branches.len()
    }

    /// The branch at the cursor, if any is left.
    pub fn current_branch(&self) -> (r: Option<String>)
        ensures
            opt_name(r) == next_branch(self@),
    {
        if self.current_index < self.branches.len() {
            Some(self.branches[self.current_index].clone())
        } else {
            None
        }
    }

    /// Moves the cursor past the branch it stands on. A cursor behind
    /// the plan stays there.
    pub fn advance(&mut self)
        ensures
            old(self).wf() ==> final(self).wf(),
            final(self)@ == advanced(old(self)@),
            final(self).kind == old(self).kind,
            final(self).branches == old(self).branches,
            final(self).original_branch == old(self).original_branch,
    {
        let len: usize = self.branches.len();
        if self.current_index < len {
            self.current_index = self.current_index + 1;
        }
    }

    /// The line that reports the finished operation.
    pub fn report(&self) -> (r: String)
        ensures
            r@ == report_text(self@),
    {
        let n = decimal_string(self.branches.len());
        let list = join_names(&self.branches, " -> ");
        wrap_text(self.kind.past_tense(), " ", n.as_str()).concat(" branch(es): ").concat(
            list.as_str(),
        )
    }
}

/// Which mode a sync was invoked in. Resuming and aborting exclude each
/// other, and each excludes a scope.
pub fn select_sync_mode(all: bool, from_main: bool, resume: bool, abort: bool) -> (r: Result<
    CommandMode,
    StackError,
>)
    ensures
        match r {
            Err(StackError::ContinueWithAbort) => resume && abort,
            Err(StackError::ResumeWithScope) => !(resume && abort) && (resume || abort) && (all
                || from_main),
            Ok(CommandMode::Continue) => resume && !abort && !all && !from_main,
            Ok(CommandMode::Abort) => abort && !resume && !all && !from_main,
            Ok(CommandMode::Start { whole_stack }) => !resume && !abort && whole_stack == (all
                || from_main),
            Err(_) => false,
        },
{
    if resume && abort {
        Err(StackError::ContinueWithAbort)
    } else if (resume || abort) && (all || from_main) {
        Err(StackError::ResumeWithScope)
    } else if resume {
        Ok(CommandMode::Continue)
    } else if abort {
        Ok(CommandMode::Abort)
    } else {
        Ok(CommandMode::Start { whole_stack: all || from_main })
    }
}

/// Which mode a restack was invoked in. A restack always covers the
/// whole stack.
pub fn select_restack_mode(resume: bool, abort: bool) -> (r: Result<CommandMode, StackError>)
    ensures
        match r {
            Err(StackError::ContinueWithAbort) => resume && abort,
            Ok(CommandMode::Continue) => resume && !abort,
            Ok(CommandMode::Abort) => abort && !resume,
            Ok(CommandMode::Start { whole_stack }) => !resume && !abort && whole_stack,
            Err(_) => false,
        },
{
    if resume && abort {
        Err(StackError::ContinueWithAbort)
    } else if resume {
        Ok(CommandMode::Continue)
    } else if abort {
        Ok(CommandMode::Abort)
    } else {
        Ok(CommandMode::Start { whole_stack: true })
    }
}

/// Refuses to go on while a checkpoint exists, whatever its kind.
pub fn ensure_no_active_operation(checkpoint: &Option<PendingOperation>) -> (r: Result<
    (),
    StackError,
>)
    ensures
        match r {
            Ok(_) => checkpoint.is_none(),
            Err(StackError::OperationAlreadyInProgress { kind }) => checkpoint.is_some() && kind
                == checkpoint.unwrap().kind,
            Err(_) => false,
        },
{
    match checkpoint {
        Some(existing) => Err(StackError::OperationAlreadyInProgress { kind: existing.kind }),
        None => Ok(()),
    }
}

/// Where a bulk operation invoked on `current` begins: at the bottom of
/// the stack for the whole stack, else at `current` itself.
pub open spec fn start_of(g: StackMetadata, current: Seq<char>, whole_stack: bool) -> Seq<char> {
    if whole_stack {
        g.stack_bottom(current)
    } else {
        current
    }
}

/// Plans a new bulk operation from the checked-out branch and puts its
/// checkpoint in place. While a checkpoint exists nothing is planned and
/// the checkpoint stays as it is.
pub fn start_operation(
    checkpoint: &mut Option<PendingOperation>,
    metadata: &StackMetadata,
    kind: OperationKind,
    current_branch: &str,
    whole_stack: bool,
) -> (r: Result<(), StackError>)
    requires
        metadata.wf(),
    ensures
        match r {
            Ok(_) => old(checkpoint).is_none() && metadata.has_branch(current_branch@)
                && final(checkpoint).is_some() && final(checkpoint).unwrap()@ == (OperationView {
                kind,
                branches: branch_sequence(
                    *metadata,
                    start_of(*metadata, current_branch@, whole_stack),
                ),
                current_index: 0,
                original_branch: current_branch@,
            }) && final(checkpoint).unwrap()@.branches.len() > 0,
            Err(StackError::OperationAlreadyInProgress { kind: active }) => old(checkpoint).is_some() && active == old(checkpoint).unwrap().kind && *final(checkpoint) == *old(checkpoint),
            Err(StackError::UntrackedCurrentBranch { branch }) => old(checkpoint).is_none()
                && !metadata.has_branch(current_branch@) && branch@ == current_branch@ && final(checkpoint).is_none(),
            Err(StackError::NothingToProcess { kind: k, start }) => old(checkpoint).is_none()
                && metadata.has_branch(current_branch@) && k == kind && start@ == start_of(
                *metadata,
                current_branch@,
                whole_stack,
            ) && branch_sequence(*metadata, start@).len() == 0 && final(checkpoint).is_none(),
            Err(_) => false,
        },
{
    match ensure_no_active_operation(checkpoint) {
        Err(e) => {
            return Err(e);
        },
        Ok(_) => {},
    }
    if !metadata.contains(current_branch) {
        return Err(StackError::UntrackedCurrentBranch { branch: current_branch.to_owned() });
    }
    let start: String = if whole_stack {
        metadata.find_stack_bottom(current_branch)
    } else {
        current_branch.to_owned()
    };
    let branches = collect_branch_sequence(metadata, start.as_str());
    if branches.len() == 0 {
        return Err(StackError::NothingToProcess { kind, start });
    }
    let state = PendingOperation::new(kind, branches, current_branch.to_owned());
    *checkpoint = Some(state);
    Ok(())
}

/// Decides the next step of an operation: nothing is left, or the branch
/// at the cursor is rebased onto its recorded parent. `branch_exists`
/// tells whether that branch still exists; it is not looked at where
/// nothing is left.
pub fn plan_step(metadata: &StackMetadata, state: &PendingOperation, branch_exists: bool) -> (r:
    Result<Step, StackError>)
    requires
        metadata.wf(),
    ensures
        match r {
            Ok(Step::Finished) => state.current_index >= state.branches@.len(),
            Ok(Step::Rebase { branch, onto }) => state.current_index < state.branches@.len()
                && branch_exists && branch@ == state@.branches[state.current_index as int]
                && metadata.parent_of(branch@) == Some(onto@),
            Err(StackError::BranchMissing { branch }) => state.current_index
                < state.branches@.len() && !branch_exists && branch@
                == state@.branches[state.current_index as int],
            Err(StackError::NoRecordedParent { branch }) => state.current_index
                < state.branches@.len() && branch_exists && branch@
                == state@.branches[state.current_index as int] && metadata.parent_of(
                branch@,
            ).is_none(),
            Err(_) => false,
        },
{
    if state.current_index >= state.branches.len() {
        return Ok(Step::Finished);
    }
    let branch: String = state.branches[state.current_index].clone();
    if !branch_exists {
        return Err(StackError::BranchMissing { branch });
    }
    match metadata.get_parent(branch.as_str()) {
        Some(onto) => Ok(Step::Rebase { branch, onto }),
        None => Err(StackError::NoRecordedParent { branch }),
    }
}

/// Takes in what the rebase of the branch at the cursor onto `onto` came
/// to. A success moves the cursor on by one. A conflict leaves the cursor
/// where it is, so that the same branch is taken up again, and reports the
/// branch, its parent and what the tool printed. A fatal failure leaves
/// the cursor too.
pub fn record_outcome(state: &mut PendingOperation, onto: &str, outcome: RebaseOutcome) -> (r:
    Result<(), StackError>)
    requires
        old(state).current_index < old(state).branches@.len(),
    ensures
        final(state).wf(),
        final(state)@ == after_outcome(old(state)@, outcome is Success),
        final(state).kind == old(state).kind,
        final(state).branches == old(state).branches,
        final(state).original_branch == old(state).original_branch,
        match outcome {
            RebaseOutcome::Success => r.is_ok() && final(state).current_index == old(state).current_index + 1,
            RebaseOutcome::Conflict { diagnostics } => final(state).current_index == old(state).current_index && match r {
                Err(StackError::RebaseConflict { branch, parent, kind, diagnostics: d }) =>
                    branch@ == old(state)@.branches[old(state).current_index as int] && parent@
                        == onto@ && kind == old(state).kind && d == diagnostics,
                _ => false,
            },
            RebaseOutcome::Fatal { diagnostics } => final(state).current_index == old(state).current_index && r == Err::<(), StackError>(
                StackError::ExternalToolFailure { diagnostics },
            ),
        },
{
    match outcome {
        RebaseOutcome::Success => {
            state.advance();
            Ok(())
        },
        RebaseOutcome::Conflict { diagnostics } => Err(
            StackError::RebaseConflict {
                branch: state.branches[state.current_index].clone(),
                parent: onto.to_owned(),
                kind: state.kind,
                diagnostics,
            },
        ),
        RebaseOutcome::Fatal { diagnostics } => Err(
            StackError::ExternalToolFailure { diagnostics },
        ),
    }
}

/// Decides whether the operation in progress can be resumed as `kind`.
/// `Ok(true)` asks to let the version-control tool continue its rebase,
/// after which the cursor moves on; `Ok(false)` says that nothing is left
/// but to finish.
pub fn continue_operation(checkpoint: &Option<PendingOperation>, kind: OperationKind) -> (r:
    Result<bool, StackError>)
    ensures
        match r {
            Ok(resume) => checkpoint.is_some() && checkpoint.unwrap().kind == kind && resume == (
            checkpoint.unwrap().current_index < checkpoint.unwrap().branches@.len()),
            Err(StackError::NoOperationInProgress { kind: k }) => checkpoint.is_none() && k
                == kind,
            Err(StackError::OperationKindMismatch { active, aborting }) => checkpoint.is_some()
                && checkpoint.unwrap().kind != kind && active == checkpoint.unwrap().kind
                && !aborting,
            Err(_) => false,
        },
{
    match checkpoint {
        None => Err(StackError::NoOperationInProgress { kind }),
        Some(state) => {
            if state.kind != kind {
                Err(StackError::OperationKindMismatch { active: state.kind, aborting: false })
            } else {
                Ok(state.current_index < state.branches.len())
            }
        },
    }
}

/// The line that reports an aborted operation.
pub open spec fn aborted_text(kind: OperationKind) -> Seq<char> {
    "Aborted "@ + kind.name_text() + " operation."@
}

/// Aborts the operation in progress as `kind`: the checkpoint is
/// discarded and the line to report is returned. Without a checkpoint, or
/// with one of the other kind, nothing changes. The branch checked out
/// when the operation began is not part of the result.
pub fn abort_operation(checkpoint: &mut Option<PendingOperation>, kind: OperationKind) -> (r:
    Result<String, StackError>)
    ensures
        match r {
            Ok(line) => old(checkpoint).is_some() && old(checkpoint).unwrap().kind == kind
                && final(checkpoint).is_none() && line@ == aborted_text(kind),
            Err(StackError::NoOperationInProgress { kind: k }) => old(checkpoint).is_none()
                && final(checkpoint).is_none() && k == kind,
            Err(StackError::OperationKindMismatch { active, aborting }) => old(checkpoint).is_some() && old(checkpoint).unwrap().kind != kind && active == old(checkpoint).unwrap().kind && aborting && *final(checkpoint) == *old(checkpoint),
            Err(_) => false,
        },
{
    let active: Option<OperationKind> = match checkpoint {
        None => None,
        Some(state) => Some(state.kind),
    };
    match active {
        None => Err(StackError::NoOperationInProgress { kind }),
        Some(active) => {
            if active != kind {
                Err(StackError::OperationKindMismatch { active, aborting: true })
            } else {
                *checkpoint = None;
                Ok(wrap_text("Aborted ", kind.name(), " operation."))
            }
        },
    }
}

/// Finishes a complete operation: the checkpoint is discarded, and the
/// branch to check out again and the report are returned. An operation
/// with branches left stays as it is.
pub fn finalize_operation(checkpoint: &mut Option<PendingOperation>) -> (r: Option<Completion>)
    ensures
        match r {
            Some(done) => old(checkpoint).is_some() && old(checkpoint).unwrap().current_index
                >= old(checkpoint).unwrap().branches@.len() && final(checkpoint).is_none()
                && done.checkout@ == old(checkpoint).unwrap().original_branch@ && done.report@
                == report_text(old(checkpoint).unwrap()@),
            None => *final(checkpoint) == *old(checkpoint) && (old(checkpoint).is_none() || old(checkpoint).unwrap().current_index < old(checkpoint).unwrap().branches@.len()),
        },
{
    let done: Option<Completion> = match checkpoint {
        None => None,
        Some(state) => {
            if state.is_complete() {
                Some(
                    Completion { checkout: state.original_branch.clone(), report: state.report() },
                )
            } else {
                None
            }
        },
    };
    if done.is_some() {
        *checkpoint = None;
    }
    done
}

/// The line printed before a rebase step.
pub fn rebasing_line(branch: &str, onto: &str) -> (r: String)
    ensures
        r@ == "Rebasing '"@ + branch@ + "' onto '"@ + onto@ + "'"@,
{
    wrap_text("Rebasing '", branch, "' onto '").concat(onto).concat("'")
}

/// A conflict on the branch at the cursor leaves the cursor on that
/// branch; continuing afterwards moves the cursor on by one, and the next
/// step takes up the branch that follows.
pub proof fn lemma_conflict_then_continue(op: OperationView)
    requires
        op.current_index < op.branches.len(),
    ensures
        after_outcome(op, false).current_index == op.current_index,
        next_branch(after_outcome(op, false)) == Some(op.branches[op.current_index as int]),
        advanced(after_outcome(op, false)).current_index == op.current_index + 1,
        next_branch(advanced(after_outcome(op, false))) == (if op.current_index + 1
            < op.branches.len() {
            Some(op.branches[op.current_index as int + 1])
        } else {
            None
        }),
        advanced(after_outcome(op, false)) == after_outcome(op, true),
{
}

} // verus!
