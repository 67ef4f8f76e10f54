//! Moving through a stack one branch at a time: up to a child, down to
//! the parent, to the top and to the bottom.

use vstd::prelude::*;
use crate::error::{wrap_text, StackError};
use crate::graph::{lemma_child_step, lemma_children_in, StackMetadata};
use crate::names::{name_seq, same_name};
use crate::text::{decimal, decimal_string};

verus! {

/// Where a walk over some number of hops ends.
pub enum Walk {
    /// Every hop was made; the walk stands on this branch.
    Reached { at: Seq<char> },
    /// After `moved` hops there was no branch to go on to.
    Stuck { moved: nat },
    /// After `moved` hops the walk met a fork: `at` has these children.
    Fork { at: Seq<char>, children: Seq<Seq<char>> },
}

/// The walk up from `name` over `hops` hops, `moved` hops being made
/// already: each hop goes to the only child.
pub open spec fn climb(g: StackMetadata, name: Seq<char>, hops: nat, moved: nat) -> Walk
    decreases hops,
{
    let kids = g.children_of(name);
    if hops == 0 {
        Walk::Reached { at: name }
    } else if kids.len() == 0 {
        Walk::Stuck { moved }
    } else if kids.len() == 1 {
        climb(g, kids[0], (hops - 1) as nat, moved + 1)
    } else {
        Walk::Fork { at: name, children: kids }
    }
}

/// The walk down from `name` over `hops` hops, `moved` hops being made
/// already: each hop goes to the recorded parent, which has to be in the
/// graph.
pub open spec fn descend(g: StackMetadata, name: Seq<char>, hops: nat, moved: nat) -> Walk
    decreases hops,
{
    if hops == 0 {
        Walk::Reached { at: name }
    } else {
        match g.stack_parent(name) {
            Some(p) => descend(g, p, (hops - 1) as nat, moved + 1),
            None => Walk::Stuck { moved },
        }
    }
}

/// Where a navigation command ends.
#[derive(Debug)]
pub struct Movement {
    /// The branch to stand on.
    pub target: String,
    /// Whether that branch has to be checked out.
    pub checkout: bool,
    /// The line that reports the move.
    pub line: String,
}

/// The line that reports a switch to `target`, with a note on where in
/// the stack that is.
pub open spec fn switched_text(target: Seq<char>, note: Seq<char>) -> Seq<char> {
    "Switched to branch '"@ + target + "'"@ + note
}

/// Moves up `count` branches from `current`, each time to the only
/// child. Fails at a branch without children, and at a fork, where no
/// side is chosen.
pub fn up(metadata: &StackMetadata, current: &str, count: usize) -> (r: Result<
    Movement,
    StackError,
>)
    requires
        metadata.wf(),
    ensures
        match r {
            Ok(m) => climb(*metadata, current@, count as nat, 0) == (Walk::Reached {
                at: m.target@,
            }) && m.checkout && m.line@ == switched_text(m.target@, ""@),
            Err(StackError::NoChildrenInStack { branch, requested, moved }) => climb(
                *metadata,
                current@,
                count as nat,
                0,
            ) == (Walk::Stuck { moved: moved as nat }) && branch@ == current@ && requested
                == count,
            Err(StackError::AmbiguousChildren { branch, requested, children }) => climb(
                *metadata,
                current@,
                count as nat,
                0,
            ) == (Walk::Fork { at: branch@, children: name_seq(children@) }) && requested
                == count,
            Err(_) => false,
        },
{
    let mut target: String = current.to_owned();
    let mut i: usize = 0;
    while i < count
        invariant
            metadata.wf(),
            i <= count,
            climb(*metadata, target@, (count - i) as nat, i as nat) == climb(
                *metadata,
                current@,
                count as nat,
                0,
            ),
        decreases count - i,
    {
        let mut children = metadata.get_children(target.as_str());
        let ghost kids = name_seq(children@);
        if children.len() == 0 {
            return Err(
                StackError::NoChildrenInStack {
                    branch: current.to_owned(),
                    requested: count,
                    moved: i,
                },
            );
        } else if children.len() == 1 {
            let child = children.remove(0);
            proof {
                assert(child@ == kids[0]);
            }
            target = child;
        } else {
            return Err(
                StackError::AmbiguousChildren { branch: target, requested: count, children },
            );
        }
        i += 1;
    }
    let line = wrap_text("Switched to branch '", target.as_str(), "'");
    proof {
        reveal_strlit("");
        assert(line@ =~= switched_text(target@, ""@));
    }
    Ok(Movement { target, checkout: true, line })
}

/// Moves down `count` branches from `current`, each time to the
/// recorded parent. Fails where that parent is absent or not in the
/// graph.
pub fn down(metadata: &StackMetadata, current: &str, count: usize) -> (r: Result<
    Movement,
    StackError,
>)
    requires
        metadata.wf(),
    ensures
        match r {
            Ok(m) => descend(*metadata, current@, count as nat, 0) == (Walk::Reached {
                at: m.target@,
            }) && m.checkout && m.line@ == switched_text(m.target@, ""@),
            Err(StackError::NoParentInStack { branch, requested, moved }) => descend(
                *metadata,
                current@,
                count as nat,
                0,
            ) == (Walk::Stuck { moved: moved as nat }) && branch@ == current@ && requested
                == count,
            Err(_) => false,
        },
{
    let mut target: String = current.to_owned();
    let mut i: usize = 0;
    while i < count
        invariant
            metadata.wf(),
            i <= count,
            descend(*metadata, target@, (count - i) as nat, i as nat) == descend(
                *metadata,
                current@,
                count as nat,
                0,
            ),
        decreases count - i,
    {
        let step: Option<String> = match metadata.get_parent(target.as_str()) {
            Some(parent) => if metadata.contains(parent.as_str()) {
                Some(parent)
            } else {
                None
            },
            None => None,
        };
        match step {
            Some(parent) => {
                target = parent;
            },
            None => {
                return Err(
                    StackError::NoParentInStack {
                        branch: current.to_owned(),
                        requested: count,
                        moved: i,
                    },
                );
            },
        }
        i += 1;
    }
    let line = wrap_text("Switched to branch '", target.as_str(), "'");
    proof {
        reveal_strlit("");
        assert(line@ =~= switched_text(target@, ""@));
    }
    Ok(Movement { target, checkout: true, line })
}

/// Moves to the top of the stack above `current`. Where `current` is the
/// top already, nothing is checked out.
pub fn top(metadata: &StackMetadata, current: &str) -> (r: Result<Movement, StackError>)
    requires
        metadata.wf(),
    ensures
        match r {
            Ok(m) => metadata.has_branch(current@) && m.target@ == metadata.stack_top(current@)
                && m.checkout == (m.target@ != current@) && m.line@ == (if m.target@
                == current@ {
                "Already at the top of the stack: '"@ + current@ + "'"@
            } else {
                switched_text(m.target@, " (top of stack)"@)
            }),
            Err(StackError::UntrackedCurrentBranch { branch }) => !metadata.has_branch(current@)
                && branch@ == current@,
            Err(_) => false,
        },
{
    if !metadata.contains(current) {
        return Err(StackError::UntrackedCurrentBranch { branch: current.to_owned() });
    }
    let target = metadata.find_stack_top(current);
    if same_name(target.as_str(), current) {
        let line = wrap_text("Already at the top of the stack: '", current, "'");
        Ok(Movement { target, checkout: false, line })
    } else {
        let line = wrap_text("Switched to branch '", target.as_str(), "'").concat(
            " (top of stack)",
        );
        Ok(Movement { target, checkout: true, line })
    }
}

/// Moves to the bottom of the stack that `current` is in. Where
/// `current` is the bottom already, nothing is checked out.
pub fn bottom(metadata: &StackMetadata, current: &str) -> (r: Result<Movement, StackError>)
    requires
        metadata.wf(),
    ensures
        match r {
            Ok(m) => metadata.has_branch(current@) && m.target@ == metadata.stack_bottom(
                current@,
            ) && m.checkout == (m.target@ != current@) && m.line@ == (if m.target@ == current@ {
                "Already at the bottom of the stack: '"@ + current@ + "'"@
            } else {
                switched_text(m.target@, " (bottom of stack)"@)
            }),
            Err(StackError::UntrackedCurrentBranch { branch }) => !metadata.has_branch(current@)
                && branch@ == current@,
            Err(_) => false,
        },
{
    if !metadata.contains(current) {
        return Err(StackError::UntrackedCurrentBranch { branch: current.to_owned() });
    }
    let target = metadata.find_stack_bottom(current);
    if same_name(target.as_str(), current) {
        let line = wrap_text("Already at the bottom of the stack: '", current, "'");
        Ok(Movement { target, checkout: false, line })
    } else {
        let line = wrap_text("Switched to branch '", target.as_str(), "'").concat(
            " (bottom of stack)",
        );
        Ok(Movement { target, checkout: true, line })
    }
}

/// The line that offers the `index`-th child of a fork, counted from
/// zero, under its number, counted from one.
pub open spec fn choice_text(index: nat, child: Seq<char>) -> Seq<char> {
    "  "@ + decimal(index + 1) + ": "@ + child
}

/// The lines shown where a single step up meets a fork: which branch
/// forks, then its children, numbered from one.
pub fn selection_lines(branch: &str, children: &Vec<String>) -> (r: Vec<String>)
    ensures
        r@.len() == children@.len() + 1,
        r@[0]@ == "Branch '"@ + branch@ + "' has multiple children. Select one:"@,
        forall|i: int|
            0 <= i < children@.len() ==> (#[trigger] r@[i + 1])@ == choice_text(
                i as nat,
                children@[i]@,
            ),
{
    let mut lines: Vec<String> = Vec::new();
    lines.push(wrap_text("Branch '", branch, "' has multiple children. Select one:"));
    let mut i: usize = 0;
    while i < children.len()
        invariant
            i <= children@.len(),
            lines@.len() == i + 1,
            lines@[0]@ == "Branch '"@ + branch@ + "' has multiple children. Select one:"@,
            forall|j: int|
                0 <= j < i ==> (#[trigger] lines@[j + 1])@ == choice_text(j as nat, children@[j]@),
        decreases children@.len() - i,
    {
        let n = decimal_string(i + 1);
        let line = wrap_text("  ", n.as_str(), ": ").concat(children[i].as_str());
        lines.push(line);
        i += 1;
    }
    lines
}

/// One step up from a branch of the graph and one step down again lead
/// back to that branch.
pub proof fn lemma_up_then_down(g: StackMetadata, name: Seq<char>, child: Seq<char>)
    requires
        g.wf(),
        g.has_branch(name),
        climb(g, name, 1, 0) == (Walk::Reached { at: child }),
    ensures
        descend(g, child, 1, 0) == (Walk::Reached { at: name }),
{
    reveal_with_fuel(climb, 2);
    reveal_with_fuel(descend, 2);
    let kids = g.children_of(name);
    lemma_children_in(g.rows(), name);
    assert(kids.contains(kids[0]));
    lemma_child_step(g, name, child);
}

} // verus!
