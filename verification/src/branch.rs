//! Creating and deleting branches of a stack: what is checked first, and
//! how the graph changes.

use vstd::prelude::*;
use crate::error::{wrap_text, StackError};
use crate::graph::{lemma_children_in, opt_name, BranchRecord, StackMetadata};
use crate::names::{name_lt, name_seq, same_name, strictly_sorted};
use crate::names::lemma_name_lt_irreflexive;
use crate::text::{decimal, decimal_string};

verus! {

/// A copy of an optional name.
pub fn clone_name(o: &Option<String>) -> (r: Option<String>)
    ensures
        opt_name(r) == opt_name(*o),
{
    match o {
        Some(s) => Some(s.clone()),
        None => None,
    }
}

/// Chooses the base of a new branch named `branch_name`: the base asked
/// for, which has to exist, or else the branch checked out. Fails where
/// the new name is taken.
pub fn plan_branch_create(
    branch_name: &str,
    name_taken: bool,
    base: Option<String>,
    base_exists: bool,
    head_branch: Option<String>,
) -> (r: Result<String, StackError>)
    ensures
        match r {
            Ok(chosen) => !name_taken && match base {
                Some(b) => base_exists && chosen@ == b@,
                None => head_branch.is_some() && chosen@ == head_branch.unwrap()@,
            },
            Err(StackError::BaseBranchNotFound { branch }) => base.is_some() && !base_exists
                && branch@ == base.unwrap()@,
            Err(StackError::DetachedHead { choosing_base }) => base.is_none()
                && head_branch.is_none() && choosing_base,
            Err(StackError::BranchAlreadyExists { branch }) => name_taken && branch@
                == branch_name@ && (match base {
                Some(b) => base_exists,
                None => head_branch.is_some(),
            }),
            Err(_) => false,
        },
{
    let chosen: String = match base {
        Some(b) => {
            if !base_exists {
                return Err(StackError::BaseBranchNotFound { branch: b });
            }
            b
        },
        None => match head_branch {
            Some(h) => h,
            None => {
                return Err(StackError::DetachedHead { choosing_base: true });
            },
        },
    };
    if name_taken {
        return Err(StackError::BranchAlreadyExists { branch: branch_name.to_owned() });
    }
    Ok(chosen)
}

/// Records a branch created on `base`, and returns the line that
/// reports it.
pub fn record_created(metadata: &mut StackMetadata, branch_name: &str, base: &str) -> (r: String)
    requires
        old(metadata).wf(),
    ensures
        final(metadata).wf(),
        final(metadata)@ == old(metadata)@.insert(
            branch_name@,
            BranchRecord {
                parent: Some(base@),
                created_at: final(metadata)@[branch_name@].created_at,
            },
        ),
        r@ == "Created branch '"@ + branch_name@ + "' based on '"@ + base@
            + "' and switched to it"@,
{
    metadata.add_branch(branch_name.to_owned(), Some(base.to_owned()));
    wrap_text("Created branch '", branch_name, "' based on '").concat(base).concat(
        "' and switched to it",
    )
}

/// Checks that `branch_name` may be deleted: it exists and is not the
/// branch checked out.
pub fn check_branch_delete(branch_name: &str, exists: bool, head_branch: &Option<String>) -> (r:
    Result<(), StackError>)
    ensures
        match r {
            Ok(_) => exists && opt_name(*head_branch) != Some(branch_name@),
            Err(StackError::BranchNotFound { branch }) => !exists && branch@ == branch_name@,
            Err(StackError::DeletingCurrentBranch { branch }) => exists && opt_name(*head_branch)
                == Some(branch_name@) && branch@ == branch_name@,
            Err(_) => false,
        },
{
    if !exists {
        return Err(StackError::BranchNotFound { branch: branch_name.to_owned() });
    }
    let is_head = match head_branch {
        Some(h) => same_name(h.as_str(), branch_name),
        None => false,
    };
    if is_head {
        return Err(StackError::DeletingCurrentBranch { branch: branch_name.to_owned() });
    }
    Ok(())
}

/// The record of `b` after the children of `name` have moved onto the
/// recorded parent of `name`.
pub open spec fn restacked_record(g: StackMetadata, name: Seq<char>, b: Seq<char>) -> BranchRecord {
    if g@[b].parent == Some(name) {
        BranchRecord { parent: g.parent_of(name), created_at: g@[b].created_at }
    } else {
        g@[b]
    }
}

/// The graph after the children of `name` have moved onto the recorded
/// parent of `name`: the same branches, each child with its new parent.
pub open spec fn restacked(g: StackMetadata, name: Seq<char>) -> Map<Seq<char>, BranchRecord> {
    Map::new(|b: Seq<char>| g@.contains_key(b), |b: Seq<char>| restacked_record(g, name, b))
}

/// Moves every child of `branch_name` onto the recorded parent of
/// `branch_name`, or makes it a root where there is none, and returns the
/// children in increasing order of their names.
pub fn restack_children(metadata: &mut StackMetadata, branch_name: &str) -> (r: Vec<String>)
    requires
        old(metadata).wf(),
    ensures
        final(metadata).wf(),
        final(metadata).count() == old(metadata).count(),
        name_seq(r@) == old(metadata).children_of(branch_name@),
        final(metadata)@ == restacked(*old(metadata), branch_name@),
{
    let parent = metadata.get_parent(branch_name);
    let children = metadata.get_children(branch_name);
    let ghost before = *metadata;
    let ghost kids = name_seq(children@);
    let ghost name = branch_name@;
    proof {
        lemma_children_in(before.rows(), name);
    }
    let mut i: usize = 0;
    while i < children.len()
        invariant
            i <= children@.len(),
            metadata.wf(),
            before.wf(),
            metadata.count() == before.count(),
            kids == name_seq(children@),
            kids == before.children_of(name),
            strictly_sorted(kids),
            opt_name(parent) == before.parent_of(name),
            forall|c: Seq<char>|
                kids.contains(c) <==> (#[trigger] before@.contains_key(c) && before@[c].parent
                    == Some(name)),
            forall|b: Seq<char>| metadata@.contains_key(b) <==> before@.contains_key(b),
            forall|b: Seq<char>| #[trigger]
                before@.contains_key(b) ==> metadata@[b] == (if kids.take(i as int).contains(b) {
                    restacked_record(before, name, b)
                } else {
                    before@[b]
                }),
        decreases children@.len() - i,
    {
        let ghost c = kids[i as int];
        proof {
            assert(kids.contains(c));
            assert(before@.contains_key(c));
            assert(!kids.take(i as int).contains(c)) by {
                if kids.take(i as int).contains(c) {
                    let j = choose|j: int| 0 <= j < i && kids.take(i as int)[j] == c;
                    assert(name_lt(kids[j], kids[i as int]));
                    lemma_name_lt_irreflexive(c);
                }
            }
        }
        metadata.update_parent(children[i].as_str(), clone_name(&parent));
        proof {
            let done = kids.take(i as int + 1);
            assert forall|b: Seq<char>| #[trigger] before@.contains_key(b) implies metadata@[b]
                == (if done.contains(b) {
                restacked_record(before, name, b)
            } else {
                before@[b]
            }) by {
                if b == c {
                    assert(done[i as int] == c);
                } else {
                    if kids.take(i as int).contains(b) {
                        let j = choose|j: int| 0 <= j < i && kids.take(i as int)[j] == b;
                        assert(done[j] == b);
                    }
                    if done.contains(b) {
                        let j = choose|j: int| 0 <= j < i + 1 && done[j] == b;
                        assert(kids.take(i as int)[j] == b);
                    }
                }
            }
        }
        i += 1;
    }
    proof {
        assert(kids.take(i as int) =~= kids);
        assert(metadata@ =~= restacked(before, name));
    }
    children
}

/// The line that reports one child moved onto its new parent; a child
/// that became a root is reported as moved onto "main".
pub fn restacked_line(child: &str, parent: &Option<String>) -> (r: String)
    ensures
        r@ == "Restacked '"@ + child@ + "' onto '"@ + (match opt_name(*parent) {
            Some(p) => p,
            None => "main"@,
        }) + "'"@,
{
    let head = wrap_text("Restacked '", child, "' onto '");
    match parent {
        Some(p) => head.concat(p.as_str()).concat("'"),
        None => head.concat("main").concat("'"),
    }
}

/// The line that reports a deleted branch and how many children moved.
pub open spec fn deleted_text(name: Seq<char>, moved: nat) -> Seq<char> {
    if moved == 0 {
        "Deleted branch '"@ + name + "'"@
    } else {
        "Deleted branch '"@ + name + "' and restacked "@ + decimal(moved) + " child branch(es)"@
    }
}

/// Takes a deleted branch out of the graph, after its `moved` children
/// have been moved away, and returns the line that reports it.
pub fn finish_branch_delete(metadata: &mut StackMetadata, branch_name: &str, moved: usize) -> (r:
    String)
    requires
        old(metadata).wf(),
    ensures
        final(metadata).wf(),
        final(metadata)@ == old(metadata)@.remove(branch_name@),
        r@ == deleted_text(branch_name@, moved as nat),
{
    metadata.remove_branch(branch_name);
    if moved == 0 {
        wrap_text("Deleted branch '", branch_name, "'")
    } else {
        let n = decimal_string(moved);
        wrap_text("Deleted branch '", branch_name, "' and restacked ").concat(n.as_str()).concat(
            " child branch(es)",
        )
    }
}

proof fn lemma_own_parent_walk(g: StackMetadata, name: Seq<char>, steps: nat)
    requires
        g.stack_parent(name) == Some(name),
    ensures
        g.bottom_from(name, steps) == name,
    decreases steps,
{
    if steps > 0 {
        lemma_own_parent_walk(g, name, (steps - 1) as nat);
    }
}

/// In a graph without cycles: after a branch has been deleted, each of
/// its former children has the deleted branch's former parent as its
/// recorded parent, and where there was such a parent the children are
/// listed among its children: they are siblings of one another.
pub proof fn lemma_delete_makes_siblings(
    before: StackMetadata,
    moved: StackMetadata,
    after: StackMetadata,
    name: Seq<char>,
    child: Seq<char>,
)
    requires
        before.wf(),
        moved.wf(),
        after.wf(),
        before.acyclic(),
        moved@ == restacked(before, name),
        after@ == moved@.remove(name),
        before.children_of(name).contains(child),
    ensures
        after.has_branch(child),
        after.parent_of(child) == before.parent_of(name),
        before.parent_of(name).is_some() ==> after.children_of(
            before.parent_of(name).unwrap(),
        ).contains(child),
{
    lemma_children_in(before.rows(), name);
    if child == name {
        lemma_own_parent_walk(before, name, before.count());
        assert(before.stack_parent(before.stack_bottom(name)).is_none());
    }
    if before.parent_of(name).is_some() {
        lemma_children_in(after.rows(), before.parent_of(name).unwrap());
    }
}

} // verus!
