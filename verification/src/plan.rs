//! The planner: puts the branches of a stack into the order in which a
//! bulk operation rebases them.

use vstd::prelude::*;
use crate::graph::StackMetadata;
use crate::graph::{lemma_ancestor_add, lemma_ancestor_prefix, lemma_chain_is_short};
use crate::graph::{lemma_child_step, lemma_children_in, lemma_level_unique};
use crate::names::{lemma_name_lt_irreflexive, name_lt, name_seq, strictly_sorted};

verus! {

/// The branches below and including `name` in depth-first order: `name`
/// first, then the subtree of each child, the children in increasing
/// order of their names. `depth` bounds how many levels below `name` are
/// entered.
pub open spec fn subtree_seq(g: StackMetadata, name: Seq<char>, depth: nat) -> Seq<Seq<char>>
    decreases depth, 0nat,
{
    if depth == 0 {
        seq![name]
    } else {
        seq![name] + forest_seq(g, g.children_of(name), (depth - 1) as nat)
    }
}

/// The subtrees of `names`, one after the other.
pub open spec fn forest_seq(g: StackMetadata, names: Seq<Seq<char>>, depth: nat) -> Seq<
    Seq<char>,
>
    decreases depth, names.len() + 1,
{
    if names.len() == 0 {
        Seq::empty()
    } else {
        forest_seq(g, names.drop_last(), depth) + subtree_seq(g, names.last(), depth)
    }
}

/// The plan of a bulk operation that starts at `start`: its subtree in
/// depth-first order, or nothing where `start` is not in the graph. No
/// branch of a graph without cycles lies deeper than the number of
/// branches, which bounds the walk.
pub open spec fn branch_sequence(g: StackMetadata, start: Seq<char>) -> Seq<Seq<char>> {
    if g.has_branch(start) {
        subtree_seq(g, start, g.count())
    } else {
        Seq::empty()
    }
}

fn collect_subtree(metadata: &StackMetadata, branch: &str, depth: usize, acc: &mut Vec<String>)
    requires
        metadata.wf(),
    ensures
        name_seq(final(acc)@) == name_seq(old(acc)@) + subtree_seq(
            *metadata,
            branch@,
            depth as nat,
        ),
    decreases depth,
{
    let ghost before = name_seq(acc@);
    acc.push(branch.to_owned());
    proof {
        assert(name_seq(acc@) =~= before + seq![branch@]);
    }
    if depth > 0 {
        let children = metadata.get_children(branch);
        let ghost kids = name_seq(children@);
        let mut i: usize = 0;
        proof {
            assert(kids.take(0) =~= Seq::<Seq<char>>::empty());
            assert(name_seq(acc@) =~= before + seq![branch@] + forest_seq(
                *metadata,
                kids.take(0),
                (depth - 1) as nat,
            ));
        }
        while i < children.len()
            invariant
                metadata.wf(),
                depth > 0,
                i <= children@.len(),
                kids == name_seq(children@),
                name_seq(acc@) == before + seq![branch@] + forest_seq(
                    *metadata,
                    kids.take(i as int),
                    (depth - 1) as nat,
                ),
            decreases children@.len() - i,
        {
            collect_subtree(metadata, children[i].as_str(), depth - 1, acc);
            proof {
                assert(kids.take(i as int + 1).drop_last() =~= kids.take(i as int));
                assert(kids.take(i as int + 1).last() == children@[i as int]@);
                assert(name_seq(acc@) =~= before + seq![branch@] + forest_seq(
                    *metadata,
                    kids.take(i as int + 1),
                    (depth - 1) as nat,
                ));
            }
            i += 1;
        }
        proof {
            assert(kids.take(i as int) =~= kids);
            assert(name_seq(acc@) =~= before + subtree_seq(*metadata, branch@, depth as nat));
        }
    } else {
        proof {
            assert(name_seq(acc@) =~= before + subtree_seq(*metadata, branch@, depth as nat));
        }
    }
}

/// The branches that a bulk operation starting at `start_branch` has to
/// rebase, in order: `start_branch`, then each child's subtree, the
/// children in increasing order of their names. Empty where
/// `start_branch` is not in the graph.
pub fn collect_branch_sequence(metadata: &StackMetadata, start_branch: &str) -> (r: Vec<String>)
    requires
        metadata.wf(),
    ensures
        name_seq(r@) == branch_sequence(*metadata, start_branch@),
{
    let mut branches: Vec<String> = Vec::new();
    if metadata.contains(start_branch) {
        proof {
            assert(name_seq(branches@) =~= Seq::<Seq<char>>::empty());
        }
        collect_subtree(metadata, start_branch, metadata.len(), &mut branches);
        proof {
            assert(name_seq(branches@) =~= branch_sequence(*metadata, start_branch@));
        }
    } else {
        proof {
            assert(name_seq(branches@) =~= Seq::<Seq<char>>::empty());
        }
    }
    branches
}

/// Whether `names` are children of `parent`, in increasing order.
pub open spec fn are_children(g: StackMetadata, parent: Seq<char>, names: Seq<Seq<char>>) -> bool {
    &&& strictly_sorted(names)
    &&& forall|i: int|
        0 <= i < names.len() ==> g@.contains_key(#[trigger] names[i]) && g@[names[i]].parent
            == Some(parent)
}

/// Whether `x` is `root` or lies above it in the stack: some number of
/// steps down from `x` lead to `root`.
pub open spec fn is_descendant(g: StackMetadata, x: Seq<char>, root: Seq<char>) -> bool {
    exists|k: nat| #[trigger] g.ancestor(x, k) == Some(root)
}

proof fn lemma_children_are_children(g: StackMetadata, name: Seq<char>)
    requires
        g.wf(),
    ensures
        are_children(g, name, g.children_of(name)),
{
    let kids = g.children_of(name);
    lemma_children_in(g.rows(), name);
    assert forall|i: int| 0 <= i < kids.len() implies g@.contains_key(#[trigger] kids[i])
        && g@[kids[i]].parent == Some(name) by {
        assert(kids.contains(kids[i]));
    }
}

proof fn lemma_init_children(g: StackMetadata, parent: Seq<char>, names: Seq<Seq<char>>)
    requires
        are_children(g, parent, names),
        names.len() > 0,
    ensures
        are_children(g, parent, names.drop_last()),
        g@.contains_key(names.last()),
        g@[names.last()].parent == Some(parent),
{
    let init = names.drop_last();
    assert forall|i: int| 0 <= i < init.len() implies g@.contains_key(#[trigger] init[i])
        && g@[init[i]].parent == Some(parent) by {
        assert(init[i] == names[i]);
    }
    assert forall|i: int, j: int| 0 <= i < j < init.len() implies name_lt(
        #[trigger] init[i],
        #[trigger] init[j],
    ) by {
        assert(init[i] == names[i] && init[j] == names[j]);
    }
    assert(g@.contains_key(names[names.len() - 1]));
}

proof fn lemma_subtree_member(g: StackMetadata, name: Seq<char>, d: nat, x: Seq<char>) -> (k: nat)
    requires
        g.wf(),
        g@.contains_key(name),
        subtree_seq(g, name, d).contains(x),
    ensures
        k <= d,
        g.ancestor(x, k) == Some(name),
    decreases d, 0nat,
{
    let s = subtree_seq(g, name, d);
    let idx = choose|i: int| 0 <= i < s.len() && s[i] == x;
    if idx == 0 {
        0
    } else {
        let kids = g.children_of(name);
        lemma_children_are_children(g, name);
        let f = forest_seq(g, kids, (d - 1) as nat);
        assert(f[idx - 1] == x);
        let (i, k) = lemma_forest_member(g, name, kids, (d - 1) as nat, x);
        lemma_child_step(g, name, kids[i]);
        lemma_ancestor_add(g, x, k, 1);
        k + 1
    }
}

proof fn lemma_forest_member(
    g: StackMetadata,
    parent: Seq<char>,
    names: Seq<Seq<char>>,
    d: nat,
    x: Seq<char>,
) -> (r: (int, nat))
    requires
        g.wf(),
        are_children(g, parent, names),
        forest_seq(g, names, d).contains(x),
    ensures
        0 <= r.0 < names.len(),
        r.1 <= d,
        g.ancestor(x, r.1) == Some(names[r.0]),
    decreases d, names.len() + 1,
{
    let f = forest_seq(g, names, d);
    let idx = choose|i: int| 0 <= i < f.len() && f[i] == x;
    let init = names.drop_last();
    let left = forest_seq(g, init, d);
    let right = subtree_seq(g, names.last(), d);
    assert(names.len() > 0);
    lemma_init_children(g, parent, names);
    if idx < left.len() {
        assert(left[idx] == x);
        let (i, k) = lemma_forest_member(g, parent, init, d, x);
        assert(init[i] == names[i]);
        (i, k)
    } else {
        assert(right[idx - left.len()] == x);
        let k = lemma_subtree_member(g, names.last(), d, x);
        (names.len() - 1, k)
    }
}

proof fn lemma_forest_includes(
    g: StackMetadata,
    names: Seq<Seq<char>>,
    d: nat,
    i: int,
    x: Seq<char>,
)
    requires
        0 <= i < names.len(),
        subtree_seq(g, names[i], d).contains(x),
    ensures
        forest_seq(g, names, d).contains(x),
    decreases names.len(),
{
    let init = names.drop_last();
    let left = forest_seq(g, init, d);
    let right = subtree_seq(g, names.last(), d);
    let f = forest_seq(g, names, d);
    if i == names.len() - 1 {
        let idx = choose|j: int| 0 <= j < right.len() && right[j] == x;
        assert(f[left.len() + idx] == x);
    } else {
        assert(init[i] == names[i]);
        lemma_forest_includes(g, init, d, i, x);
        let idx = choose|j: int| 0 <= j < left.len() && left[j] == x;
        assert(f[idx] == x);
    }
}

proof fn lemma_subtree_complete(g: StackMetadata, name: Seq<char>, d: nat, x: Seq<char>, k: nat)
    requires
        g.wf(),
        g@.contains_key(name),
        k <= d,
        g.ancestor(x, k) == Some(name),
    ensures
        subtree_seq(g, name, d).contains(x),
    decreases k,
{
    let s = subtree_seq(g, name, d);
    if k == 0 {
        assert(s[0] == x);
    } else {
        reveal_with_fuel(StackMetadata::ancestor, 2);
        lemma_ancestor_prefix(g, x, (k - 1) as nat, 1);
        let c = g.ancestor(x, (k - 1) as nat).unwrap();
        lemma_ancestor_add(g, x, (k - 1) as nat, 1);
        assert(g.ancestor(c, 1) == Some(name));
        assert(g.stack_parent(c) == Some(name));
        let kids = g.children_of(name);
        lemma_children_in(g.rows(), name);
        assert(g@.contains_key(c) && g@[c].parent == Some(name));
        assert(kids.contains(c));
        let i = choose|i: int| 0 <= i < kids.len() && kids[i] == c;
        lemma_subtree_complete(g, c, (d - 1) as nat, x, (k - 1) as nat);
        lemma_forest_includes(g, kids, (d - 1) as nat, i, x);
        let f = forest_seq(g, kids, (d - 1) as nat);
        let idx = choose|j: int| 0 <= j < f.len() && f[j] == x;
        assert(s[idx + 1] == x);
    }
}

/// Two different children of one parent head separate subtrees: where a
/// branch below one and a branch below the other have the same recorded
/// parent, the first is that child itself.
proof fn lemma_cousins(
    g: StackMetadata,
    parent: Seq<char>,
    a: Seq<char>,
    b: Seq<char>,
    x: Seq<char>,
    k1: nat,
    y: Seq<char>,
    k2: nat,
)
    requires
        g.wf(),
        g.acyclic(),
        g@.contains_key(parent),
        g@.contains_key(a) && g@[a].parent == Some(parent),
        g@.contains_key(b) && g@[b].parent == Some(parent),
        a != b,
        g.ancestor(x, k1) == Some(a),
        g.ancestor(y, k2) == Some(b),
        g.parent_of(x) == g.parent_of(y),
    ensures
        k1 == 0,
{
    if k1 >= 1 {
        reveal_with_fuel(StackMetadata::ancestor, 2);
        lemma_child_step(g, parent, a);
        lemma_child_step(g, parent, b);
        lemma_ancestor_add(g, x, k1, 1);
        lemma_ancestor_add(g, y, k2, 1);
        lemma_ancestor_prefix(g, x, 1, (k1 - 1) as nat);
        let q = g.stack_parent(x).unwrap();
        assert(g.ancestor(x, 1) == Some(q));
        assert(g.parent_of(y) == Some(q));
        assert(g.stack_parent(y) == Some(q));
        assert(g.ancestor(y, 1) == Some(q));
        lemma_ancestor_add(g, x, 1, k1);
        lemma_ancestor_add(g, y, 1, k2);
        assert(g.ancestor(q, k1) == Some(parent));
        assert(g.ancestor(q, k2) == Some(parent));
        lemma_level_unique(g, q, parent, k1, k2);
        lemma_ancestor_add(g, x, 1, (k1 - 1) as nat);
        lemma_ancestor_add(g, y, 1, (k2 - 1) as nat);
        assert(g.ancestor(q, (k1 - 1) as nat) == Some(a));
        assert(g.ancestor(q, (k2 - 1) as nat) == Some(b));
    }
}

proof fn lemma_subtree_distinct(g: StackMetadata, name: Seq<char>, d: nat)
    requires
        g.wf(),
        g.acyclic(),
        g@.contains_key(name),
    ensures
        subtree_seq(g, name, d).no_duplicates(),
    decreases d, 0nat,
{
    let s = subtree_seq(g, name, d);
    if d > 0 {
        let kids = g.children_of(name);
        lemma_children_are_children(g, name);
        lemma_forest_distinct(g, name, kids, (d - 1) as nat);
        let f = forest_seq(g, kids, (d - 1) as nat);
        if f.contains(name) {
            let (i, k) = lemma_forest_member(g, name, kids, (d - 1) as nat, name);
            lemma_child_step(g, name, kids[i]);
            lemma_ancestor_add(g, name, k, 1);
            lemma_level_unique(g, name, name, k + 1, 0);
        }
        assert forall|i: int, j: int| 0 <= i < s.len() && 0 <= j < s.len() && i != j implies s[i]
            != s[j] by {
            if i == 0 {
                assert(f[j - 1] == s[j]);
            } else if j == 0 {
                assert(f[i - 1] == s[i]);
            } else {
                assert(f[i - 1] == s[i] && f[j - 1] == s[j]);
            }
        }
    }
}

proof fn lemma_forest_distinct(
    g: StackMetadata,
    parent: Seq<char>,
    names: Seq<Seq<char>>,
    d: nat,
)
    requires
        g.wf(),
        g.acyclic(),
        g@.contains_key(parent),
        are_children(g, parent, names),
    ensures
        forest_seq(g, names, d).no_duplicates(),
    decreases d, names.len() + 1,
{
    if names.len() > 0 {
        let f = forest_seq(g, names, d);
        let init = names.drop_last();
        let last = names.last();
        let left = forest_seq(g, init, d);
        let right = subtree_seq(g, last, d);
        lemma_init_children(g, parent, names);
        lemma_forest_distinct(g, parent, init, d);
        lemma_subtree_distinct(g, last, d);
        assert forall|i: int, j: int| 0 <= i < left.len() && 0 <= j < right.len() implies left[i]
            != right[j] by {
            if left[i] == right[j] {
                let x = left[i];
                assert(left.contains(x));
                assert(right.contains(x));
                let (i0, k1) = lemma_forest_member(g, parent, init, d, x);
                let k2 = lemma_subtree_member(g, last, d, x);
                assert(init[i0] == names[i0]);
                assert(name_lt(names[i0], names[names.len() - 1]));
                lemma_name_lt_irreflexive(last);
                lemma_cousins(g, parent, names[i0], last, x, k1, x, k2);
                lemma_cousins(g, parent, last, names[i0], x, k2, x, k1);
            }
        }
        assert forall|i: int, j: int| 0 <= i < f.len() && 0 <= j < f.len() && i != j implies f[i]
            != f[j] by {
            if i < left.len() && j < left.len() {
                assert(f[i] == left[i] && f[j] == left[j]);
            } else if i >= left.len() && j >= left.len() {
                assert(f[i] == right[i - left.len()] && f[j] == right[j - left.len()]);
            } else if i < left.len() {
                assert(f[i] == left[i] && f[j] == right[j - left.len()]);
            } else {
                assert(f[j] == left[j] && f[i] == right[i - left.len()]);
            }
        }
    }
}

proof fn lemma_subtree_parent_before(g: StackMetadata, name: Seq<char>, d: nat, idx: int) -> (j:
    int)
    requires
        g.wf(),
        g@.contains_key(name),
        1 <= idx < subtree_seq(g, name, d).len(),
    ensures
        0 <= j < idx,
        g.parent_of(subtree_seq(g, name, d)[idx]) == Some(subtree_seq(g, name, d)[j]),
    decreases d, 0nat,
{
    let s = subtree_seq(g, name, d);
    let kids = g.children_of(name);
    lemma_children_are_children(g, name);
    let f = forest_seq(g, kids, (d - 1) as nat);
    assert(s[idx] == f[idx - 1]);
    let j0 = lemma_forest_parent_before(g, name, kids, (d - 1) as nat, idx - 1);
    if j0 < 0 {
        0
    } else {
        assert(s[j0 + 1] == f[j0]);
        j0 + 1
    }
}

proof fn lemma_forest_parent_before(
    g: StackMetadata,
    parent: Seq<char>,
    names: Seq<Seq<char>>,
    d: nat,
    idx: int,
) -> (j: int)
    requires
        g.wf(),
        are_children(g, parent, names),
        0 <= idx < forest_seq(g, names, d).len(),
    ensures
        -1 <= j < idx,
        j == -1 ==> g.parent_of(forest_seq(g, names, d)[idx]) == Some(parent),
        j >= 0 ==> g.parent_of(forest_seq(g, names, d)[idx]) == Some(forest_seq(g, names, d)[j]),
    decreases d, names.len() + 1,
{
    let f = forest_seq(g, names, d);
    let init = names.drop_last();
    let last = names.last();
    let left = forest_seq(g, init, d);
    let right = subtree_seq(g, last, d);
    lemma_init_children(g, parent, names);
    if idx < left.len() {
        assert(f[idx] == left[idx]);
        let j = lemma_forest_parent_before(g, parent, init, d, idx);
        if j >= 0 {
            assert(f[j] == left[j]);
        }
        j
    } else {
        let t = idx - left.len();
        assert(f[idx] == right[t]);
        if t == 0 {
            assert(right[0] == last);
            -1
        } else {
            let jl = lemma_subtree_parent_before(g, last, d, t);
            assert(f[left.len() + jl] == right[jl]);
            left.len() + jl
        }
    }
}

proof fn lemma_subtree_sibling_order(g: StackMetadata, name: Seq<char>, d: nat, a: int, b: int)
    requires
        g.wf(),
        g.acyclic(),
        g@.contains_key(name),
        0 <= a < b < subtree_seq(g, name, d).len(),
        g.parent_of(subtree_seq(g, name, d)[a]) == g.parent_of(subtree_seq(g, name, d)[b]),
    ensures
        name_lt(subtree_seq(g, name, d)[a], subtree_seq(g, name, d)[b]),
    decreases d, 0nat,
{
    let s = subtree_seq(g, name, d);
    let kids = g.children_of(name);
    lemma_children_are_children(g, name);
    let f = forest_seq(g, kids, (d - 1) as nat);
    assert(s[b] == f[b - 1]);
    if a == 0 {
        reveal_with_fuel(StackMetadata::ancestor, 2);
        let y = s[b];
        assert(f.contains(y));
        let (i, k) = lemma_forest_member(g, name, kids, (d - 1) as nat, y);
        lemma_child_step(g, name, kids[i]);
        lemma_ancestor_add(g, y, k, 1);
        lemma_ancestor_prefix(g, y, 1, k);
        let q = g.stack_parent(y).unwrap();
        assert(g.ancestor(y, 1) == Some(q));
        assert(g.parent_of(name) == Some(q));
        assert(g.stack_parent(name) == Some(q));
        assert(g.ancestor(name, 1) == Some(q));
        lemma_ancestor_add(g, y, k + 1, 1);
        lemma_level_unique(g, y, q, k + 2, 1);
    } else {
        assert(s[a] == f[a - 1]);
        lemma_forest_sibling_order(g, name, kids, (d - 1) as nat, a - 1, b - 1);
    }
}

proof fn lemma_forest_sibling_order(
    g: StackMetadata,
    parent: Seq<char>,
    names: Seq<Seq<char>>,
    d: nat,
    a: int,
    b: int,
)
    requires
        g.wf(),
        g.acyclic(),
        g@.contains_key(parent),
        are_children(g, parent, names),
        0 <= a < b < forest_seq(g, names, d).len(),
        g.parent_of(forest_seq(g, names, d)[a]) == g.parent_of(forest_seq(g, names, d)[b]),
    ensures
        name_lt(forest_seq(g, names, d)[a], forest_seq(g, names, d)[b]),
    decreases d, names.len() + 1,
{
    let f = forest_seq(g, names, d);
    let init = names.drop_last();
    let last = names.last();
    let left = forest_seq(g, init, d);
    let right = subtree_seq(g, last, d);
    lemma_init_children(g, parent, names);
    if b < left.len() {
        assert(f[a] == left[a] && f[b] == left[b]);
        lemma_forest_sibling_order(g, parent, init, d, a, b);
    } else if a >= left.len() {
        assert(f[a] == right[a - left.len()] && f[b] == right[b - left.len()]);
        lemma_subtree_sibling_order(g, last, d, a - left.len(), b - left.len());
    } else {
        let x = f[a];
        let y = f[b];
        assert(x == left[a] && y == right[b - left.len()]);
        assert(left.contains(x));
        assert(right.contains(y));
        let (i0, k1) = lemma_forest_member(g, parent, init, d, x);
        let k2 = lemma_subtree_member(g, last, d, y);
        assert(init[i0] == names[i0]);
        assert(name_lt(names[i0], names[names.len() - 1]));
        lemma_name_lt_irreflexive(last);
        lemma_cousins(g, parent, names[i0], last, x, k1, y, k2);
        lemma_cousins(g, parent, last, names[i0], y, k2, x, k1);
    }
}

/// The plan of a bulk operation, for a graph without cycles and a start
/// that is in the graph: it begins with the start; it holds the start and
/// every branch stacked above it, and no other; no branch comes twice;
/// every branch but the start comes after its recorded parent; and of
/// two branches with the same recorded parent the one with the smaller
/// name comes first.
pub proof fn lemma_branch_sequence(g: StackMetadata, root: Seq<char>)
    requires
        g.wf(),
        g.acyclic(),
        g.has_branch(root),
    ensures
        branch_sequence(g, root).len() > 0,
        branch_sequence(g, root)[0] == root,
        forall|x: Seq<char>| branch_sequence(g, root).contains(x) <==> is_descendant(g, x, root),
        branch_sequence(g, root).no_duplicates(),
        forall|i: int|
            1 <= i < branch_sequence(g, root).len() ==> exists|j: int|
                0 <= j < i && g.parent_of(#[trigger] branch_sequence(g, root)[i]) == Some(
                    branch_sequence(g, root)[j],
                ),
        forall|a: int, b: int|
            0 <= a < b < branch_sequence(g, root).len() && g.parent_of(
                branch_sequence(g, root)[a],
            ) == g.parent_of(branch_sequence(g, root)[b]) ==> name_lt(
                #[trigger] branch_sequence(g, root)[a],
                #[trigger] branch_sequence(g, root)[b],
            ),
{
    let s = branch_sequence(g, root);
    let d = g.count();
    assert(s[0] == root);
    assert forall|x: Seq<char>| s.contains(x) <==> is_descendant(g, x, root) by {
        if s.contains(x) {
            let k = lemma_subtree_member(g, root, d, x);
            assert(g.ancestor(x, k) == Some(root));
        }
        if is_descendant(g, x, root) {
            let k = choose|k: nat| #[trigger] g.ancestor(x, k) == Some(root);
            lemma_chain_is_short(g, x, k);
            lemma_subtree_complete(g, root, d, x, k);
        }
    }
    lemma_subtree_distinct(g, root, d);
    assert forall|i: int| 1 <= i < s.len() implies exists|j: int|
        0 <= j < i && g.parent_of(#[trigger] s[i]) == Some(s[j]) by {
        let j = lemma_subtree_parent_before(g, root, d, i);
        assert(0 <= j < i && g.parent_of(s[i]) == Some(s[j]));
    }
    assert forall|a: int, b: int|
        0 <= a < b < s.len() && g.parent_of(s[a]) == g.parent_of(s[b]) implies name_lt(
        #[trigger] s[a],
        #[trigger] s[b],
    ) by {
        lemma_subtree_sibling_order(g, root, d, a, b);
    }
}

} // verus!
