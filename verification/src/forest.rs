//! The forest: the graph's branches grouped into trees for display.

use vstd::prelude::*;
use crate::graph::{lemma_rows_map, rows_sorted, BranchRow, StackMetadata};
use crate::names::{compare_names, name_lt, name_seq, strictly_sorted, NameOrder};
use crate::names::{lemma_name_lt_asymmetric, lemma_name_lt_irreflexive};
use crate::names::{lemma_name_lt_total, lemma_name_lt_transitive};

verus! {

/// A branch with the branches stacked on it.
#[derive(Debug)]
pub struct BranchNode {
    pub name: String,
    pub children: Vec<BranchNode>,
}

/// The root of one tree of the forest.
#[derive(Debug)]
pub enum StackRoot {
    /// A name that is not in the graph, with the branches stacked on it.
    ExternalParent { name: String, children: Vec<BranchNode> },
    /// A branch of the graph without a parent.
    Standalone { node: BranchNode },
}

/// The paths from `node` to each leaf below it, each path preceded by
/// `prefix`, leaves from first to last.
pub open spec fn paths_of(node: BranchNode, prefix: Seq<Seq<char>>) -> Seq<Seq<Seq<char>>>
    decreases node, 0nat,
{
    if node.children@.len() == 0 {
        seq![prefix.push(node.name@)]
    } else {
        paths_of_first(node.children@, node.children@.len(), prefix.push(node.name@))
    }
}

/// The paths through the first `k` of `nodes`, one node after the other.
pub open spec fn paths_of_first(nodes: Seq<BranchNode>, k: nat, prefix: Seq<Seq<char>>) -> Seq<
    Seq<Seq<char>>,
>
    decreases nodes, k,
{
    if k == 0 || k > nodes.len() {
        Seq::empty()
    } else {
        paths_of_first(nodes, (k - 1) as nat, prefix) + paths_of(nodes[k - 1], prefix)
    }
}

/// The names of a list of paths.
pub open spec fn paths_view(v: Seq<Vec<String>>) -> Seq<Seq<Seq<char>>> {
    Seq::new(v.len(), |i: int| name_seq(v[i]@))
}

/// Whether `node` is the tree of `name` in `g`: it carries that name,
/// and its children are the trees of the children of `name`, in their
/// order. `depth` bounds how many levels below `name` the tree has.
pub open spec fn is_subtree(node: BranchNode, g: StackMetadata, name: Seq<char>, depth: nat) -> bool
    decreases depth, 0nat,
{
    &&& node.name@ == name
    &&& if depth == 0 {
        node.children@.len() == 0
    } else {
        are_subtrees(node.children@, g, g.children_of(name), (depth - 1) as nat)
    }
}

/// Whether `nodes` are the trees of `names`, one for one.
pub open spec fn are_subtrees(
    nodes: Seq<BranchNode>,
    g: StackMetadata,
    names: Seq<Seq<char>>,
    depth: nat,
) -> bool
    decreases depth, 1nat,
{
    &&& nodes.len() == names.len()
    &&& forall|i: int| 0 <= i < nodes.len() ==> is_subtree(#[trigger] nodes[i], g, names[i], depth)
}

/// A sorted list of names with `n` put in, unless it is there already.
pub open spec fn with_name(s: Seq<Seq<char>>, n: Seq<char>) -> Seq<Seq<char>>
    decreases s.len(),
{
    if s.len() == 0 {
        seq![n]
    } else if s.last() == n {
        s
    } else if name_lt(s.last(), n) {
        s.push(n)
    } else {
        with_name(s.drop_last(), n).push(s.last())
    }
}

/// The names that rows give as parent without being in the graph
/// themselves, each once, in increasing order.
pub open spec fn external_parents_in(rows: Seq<BranchRow>, g: StackMetadata) -> Seq<Seq<char>>
    decreases rows.len(),
{
    if rows.len() == 0 {
        Seq::empty()
    } else {
        let rest = external_parents_in(rows.drop_last(), g);
        match rows.last().parent {
            Some(p) => if g.has_branch(p) {
                rest
            } else {
                with_name(rest, p)
            },
            None => rest,
        }
    }
}

/// The names of the rows without a parent, in the rows' order.
pub open spec fn standalone_in(rows: Seq<BranchRow>) -> Seq<Seq<char>>
    decreases rows.len(),
{
    if rows.len() == 0 {
        Seq::empty()
    } else if rows.last().parent.is_none() {
        standalone_in(rows.drop_last()).push(rows.last().name)
    } else {
        standalone_in(rows.drop_last())
    }
}

/// Whether `root` is the tree on the external parent `name`.
pub open spec fn is_external_root(root: StackRoot, g: StackMetadata, name: Seq<char>) -> bool {
    match root {
        StackRoot::ExternalParent { name: n, children } => n@ == name && are_subtrees(
            children@,
            g,
            g.children_of(name),
            g.count(),
        ),
        StackRoot::Standalone { node } => false,
    }
}

/// Whether `root` is the tree of the parentless branch `name`.
pub open spec fn is_standalone_root(root: StackRoot, g: StackMetadata, name: Seq<char>) -> bool {
    match root {
        StackRoot::ExternalParent { name: n, children } => false,
        StackRoot::Standalone { node } => is_subtree(node, g, name, g.count()),
    }
}

/// Whether `roots` is the forest of `g`: first one tree for each
/// external parent, then one for each branch without a parent, both in
/// increasing order of the names.
pub open spec fn is_forest(roots: Seq<StackRoot>, g: StackMetadata) -> bool {
    let ext = external_parents_in(g.rows(), g);
    let alone = standalone_in(g.rows());
    &&& roots.len() == ext.len() + alone.len()
    &&& forall|i: int| 0 <= i < ext.len() ==> is_external_root(#[trigger] roots[i], g, ext[i])
    &&& forall|j: int|
        0 <= j < alone.len() ==> is_standalone_root(#[trigger] roots[ext.len() + j], g, alone[j])
}

/// Builds the tree of `name`: the branch and, below it, the trees of its
/// children in increasing order of their names, down to `depth` levels.
pub fn build_branch_node(name: &str, metadata: &StackMetadata, depth: usize) -> (r: BranchNode)
    requires
        metadata.wf(),
    ensures
        is_subtree(r, *metadata, name@, depth as nat),
    decreases depth, 0nat,
{
    let mut children: Vec<BranchNode> = Vec::new();
    if depth > 0 {
        children = build_children(name, metadata, depth - 1);
    }
    BranchNode { name: name.to_owned(), children }
}

/// Builds the trees of the children of `name`.
pub fn build_children(name: &str, metadata: &StackMetadata, depth: usize) -> (r: Vec<BranchNode>)
    requires
        metadata.wf(),
    ensures
        are_subtrees(r@, *metadata, metadata.children_of(name@), depth as nat),
    decreases depth, 1nat,
{
    let names = metadata.get_children(name);
    let mut children: Vec<BranchNode> = Vec::new();
    let mut i: usize = 0;
    while i < names.len()
        invariant
            metadata.wf(),
            i <= names@.len(),
            children@.len() == i,
            name_seq(names@) == metadata.children_of(name@),
            forall|j: int|
                0 <= j < i ==> is_subtree(
                    #[trigger] children@[j],
                    *metadata,
                    name_seq(names@)[j],
                    depth as nat,
                ),
        decreases names@.len() - i,
    {
        let node = build_branch_node(names[i].as_str(), metadata, depth);
        children.push(node);
        i += 1;
    }
    children
}

/// Puts `name` into a sorted list of names, unless it is there already.
fn insert_name(list: &mut Vec<String>, name: String)
    ensures
        name_seq(final(list)@) == with_name(name_seq(old(list)@), name@),
{
    let ghost before = name_seq(list@);
    let mut i: usize = list.len();
    let mut found = false;
    let mut stop = false;
    proof {
        assert(before.take(i as int) =~= before);
        assert(before.skip(i as int) =~= Seq::<Seq<char>>::empty());
    }
    while !stop && i > 0
        invariant
            i <= list@.len(),
            before == name_seq(list@),
            *list == *old(list),
            found ==> stop,
            stop ==> i > 0,
            with_name(before, name@) == with_name(before.take(i as int), name@) + before.skip(
                i as int,
            ),
            found ==> before[i - 1] == name@,
            stop && !found ==> name_lt(before[i - 1], name@),
        decreases i + (if stop { 0int } else { 1int }),
    {
        let ghost head = before.take(i as int);
        proof {
            assert(head.last() == before[i - 1]);
            assert(head.drop_last() =~= before.take(i - 1));
        }
        match compare_names(list[i - 1].as_str(), name.as_str()) {
            NameOrder::Same => {
                found = true;
                stop = true;
            },
            NameOrder::Before => {
                stop = true;
            },
            NameOrder::After => {
                proof {
                    lemma_name_lt_asymmetric(name@, before[i - 1]);
                    assert(with_name(head, name@) == with_name(before.take(i - 1), name@).push(
                        before[i - 1],
                    ));
                    assert(with_name(before.take(i - 1), name@).push(before[i - 1]) + before.skip(
                        i as int,
                    ) =~= with_name(before.take(i - 1), name@) + before.skip(i - 1));
                }
                i -= 1;
            },
        }
    }
    proof {
        let head = before.take(i as int);
        if i > 0 {
            assert(head.last() == before[i - 1]);
        }
        if found {
            assert(with_name(head, name@) == head);
            assert(head + before.skip(i as int) =~= before);
        } else {
            assert(with_name(head, name@) == head.push(name@)) by {
                if i > 0 {
                    lemma_name_lt_irreflexive(name@);
                }
            }
            assert(head.push(name@) + before.skip(i as int) =~= before.insert(i as int, name@));
        }
    }
    if !found {
        list.insert(i, name);
        proof {
            assert(name_seq(list@) =~= before.insert(i as int, name@));
        }
    }
}

/// Groups the branches into trees: one tree for each external parent,
/// in increasing order of the parents' names, then one for each branch
/// without a parent, in increasing order too. Siblings stand in
/// increasing order of their names at every level.
pub fn build_stack_forest(metadata: &StackMetadata) -> (r: Vec<StackRoot>)
    requires
        metadata.wf(),
    ensures
        is_forest(r@, *metadata),
{
    let names = metadata.branch_names();
    let depth = metadata.len();
    let ghost rows = metadata.rows();
    let mut external: Vec<String> = Vec::new();
    let mut alone: Vec<String> = Vec::new();
    let mut i: usize = 0;
    proof {
        assert(name_seq(names@).len() == names@.len());
        assert(rows.take(0) =~= Seq::<BranchRow>::empty());
        assert(name_seq(external@) =~= external_parents_in(rows.take(0), *metadata));
        assert(name_seq(alone@) =~= standalone_in(rows.take(0)));
    }
    while i < names.len()
        invariant
            metadata.wf(),
            rows == metadata.rows(),
            i <= names@.len(),
            names@.len() == rows.len(),
            name_seq(names@) == Seq::new(rows.len(), |k: int| rows[k].name),
            name_seq(external@) == external_parents_in(rows.take(i as int), *metadata),
            name_seq(alone@) == standalone_in(rows.take(i as int)),
        decreases names@.len() - i,
    {
        let ghost row = rows[i as int];
        let ghost alone_before = name_seq(alone@);
        proof {
            assert(name_seq(names@)[i as int] == row.name);
            assert(rows.take(i as int + 1).drop_last() =~= rows.take(i as int));
            assert(rows.take(i as int + 1).last() == row);
            lemma_rows_map(rows);
            assert(metadata@.contains_key(row.name));
            assert(metadata.parent_of(row.name) == row.parent);
        }
        match metadata.get_parent(names[i].as_str()) {
            Some(p) => {
                if !metadata.contains(p.as_str()) {
                    insert_name(&mut external, p);
                }
            },
            None => {
                alone.push(names[i].clone());
                proof {
                    assert(name_seq(alone@) =~= alone_before.push(row.name));
                }
            },
        }
        i += 1;
    }
    proof {
        assert(rows.take(i as int) =~= rows);
    }
    let ghost ext = name_seq(external@);
    let ghost solo = name_seq(alone@);
    let mut roots: Vec<StackRoot> = Vec::new();
    let mut e: usize = 0;
    while e < external.len()
        invariant
            metadata.wf(),
            depth == metadata.count(),
            ext == name_seq(external@),
            e <= external@.len(),
            roots@.len() == e,
            forall|k: int| 0 <= k < e ==> is_external_root(#[trigger] roots@[k], *metadata, ext[k]),
        decreases external@.len() - e,
    {
        let children = build_children(external[e].as_str(), metadata, depth);
        roots.push(StackRoot::ExternalParent { name: external[e].clone(), children });
        e += 1;
    }
    let mut a: usize = 0;
    while a < alone.len()
        invariant
            metadata.wf(),
            depth == metadata.count(),
            ext == name_seq(external@),
            solo == name_seq(alone@),
            a <= alone@.len(),
            roots@.len() == ext.len() + a,
            forall|k: int|
                0 <= k < ext.len() ==> is_external_root(#[trigger] roots@[k], *metadata, ext[k]),
            forall|k: int|
                0 <= k < a ==> is_standalone_root(
                    #[trigger] roots@[ext.len() + k],
                    *metadata,
                    solo[k],
                ),
        decreases alone@.len() - a,
    {
        let node = build_branch_node(alone[a].as_str(), metadata, depth);
        let ghost before = roots@;
        roots.push(StackRoot::Standalone { node });
        proof {
            assert forall|k: int| 0 <= k < ext.len() implies is_external_root(
                #[trigger] roots@[k],
                *metadata,
                ext[k],
            ) by {
                assert(roots@[k] == before[k]);
            }
            assert forall|k: int| 0 <= k < a + 1 implies is_standalone_root(
                #[trigger] roots@[ext.len() + k],
                *metadata,
                solo[k],
            ) by {
                if k < a {
                    assert(roots@[ext.len() + k] == before[ext.len() + k]);
                }
            }
        }
        a += 1;
    }
    roots
}

/// A copy of a list of names.
pub fn clone_names(v: &Vec<String>) -> (r: Vec<String>)
    ensures
        name_seq(r@) == name_seq(v@),
{
    let mut out: Vec<String> = Vec::new();
    let mut i: usize = 0;
    while i < v.len()
        invariant
            i <= v@.len(),
            out@.len() == i,
            forall|j: int| 0 <= j < i ==> (#[trigger] out@[j])@ == v@[j]@,
        decreases v@.len() - i,
    {
        out.push(v[i].clone());
        i += 1;
    }
    proof {
        assert(name_seq(out@) =~= name_seq(v@));
    }
    out
}

/// Adds to `output` the path from `node` to each leaf below it, each
/// path preceded by `current`.
pub fn collect_paths(node: &BranchNode, current: Vec<String>, output: &mut Vec<Vec<String>>)
    ensures
        paths_view(final(output)@) == paths_view(old(output)@) + paths_of(
            *node,
            name_seq(current@),
        ),
    decreases node,
{
    let ghost before = paths_view(output@);
    let ghost prefix = name_seq(current@).push(node.name@);
    let mut current = current;
    current.push(node.name.clone());
    proof {
        assert(name_seq(current@) =~= prefix);
    }
    if node.children.len() == 0 {
        output.push(current);
        proof {
            assert(paths_view(output@) =~= before + seq![prefix]);
        }
    } else {
        let mut i: usize = 0;
        proof {
            assert(paths_view(output@) =~= before + paths_of_first(node.children@, 0, prefix));
        }
        while i < node.children.len()
            invariant
                i <= node.children@.len(),
                name_seq(current@) == prefix,
                paths_view(output@) == before + paths_of_first(node.children@, i as nat, prefix),
            decreases node.children@.len() - i,
        {
            collect_paths(&node.children[i], clone_names(&current), output);
            proof {
                assert(paths_view(output@) =~= before + paths_of_first(
                    node.children@,
                    (i + 1) as nat,
                    prefix,
                ));
            }
            i += 1;
        }
    }
}


/// Putting a name into a sorted list keeps the list sorted and adds
/// that name and no other.
pub proof fn lemma_with_name(s: Seq<Seq<char>>, n: Seq<char>)
    requires
        strictly_sorted(s),
    ensures
        strictly_sorted(with_name(s, n)),
        forall|x: Seq<char>| #[trigger] with_name(s, n).contains(x) <==> (x == n || s.contains(x)),
    decreases s.len(),
{
    let r = with_name(s, n);
    if s.len() == 0 {
        assert(r[0] == n);
    } else if s.last() == n {
        assert(s[s.len() - 1] == n);
    } else if name_lt(s.last(), n) {
        assert forall|i: int, j: int| 0 <= i < j < r.len() implies name_lt(
            #[trigger] r[i],
            #[trigger] r[j],
        ) by {
            if j == s.len() {
                if i < s.len() - 1 {
                    assert(name_lt(s[i], s[s.len() - 1]));
                    lemma_name_lt_transitive(s[i], s.last(), n);
                }
            } else {
                assert(name_lt(s[i], s[j]));
            }
        }
        assert forall|x: Seq<char>| #[trigger] r.contains(x) <==> (x == n || s.contains(x)) by {
            if r.contains(x) {
                let i = choose|i: int| 0 <= i < r.len() && r[i] == x;
                if i < s.len() {
                    assert(s[i] == x);
                }
            }
            if x == n {
                assert(r[s.len() as int] == x);
            } else if s.contains(x) {
                let i = choose|i: int| 0 <= i < s.len() && s[i] == x;
                assert(r[i] == x);
            }
        }
    } else {
        let init = s.drop_last();
        let last = s.last();
        let head = with_name(init, n);
        assert(strictly_sorted(init)) by {
            assert forall|i: int, j: int| 0 <= i < j < init.len() implies name_lt(
                #[trigger] init[i],
                #[trigger] init[j],
            ) by {
                assert(name_lt(s[i], s[j]));
            }
        }
        lemma_with_name(init, n);
        lemma_name_lt_total(last, n);
        assert forall|i: int, j: int| 0 <= i < j < r.len() implies name_lt(
            #[trigger] r[i],
            #[trigger] r[j],
        ) by {
            if j == head.len() {
                assert(head.contains(head[i]));
                if head[i] != n {
                    let k = choose|k: int| 0 <= k < init.len() && init[k] == head[i];
                    assert(name_lt(s[k], s[s.len() - 1]));
                }
            } else {
                assert(name_lt(head[i], head[j]));
            }
        }
        assert forall|x: Seq<char>| #[trigger] r.contains(x) <==> (x == n || s.contains(x)) by {
            if r.contains(x) {
                let i = choose|i: int| 0 <= i < r.len() && r[i] == x;
                if i < head.len() {
                    assert(head.contains(x));
                    if x != n {
                        let k = choose|k: int| 0 <= k < init.len() && init[k] == x;
                        assert(s[k] == x);
                    }
                } else {
                    assert(s[s.len() - 1] == x);
                }
            }
            if x == n {
                assert(head.contains(n));
                let i = choose|i: int| 0 <= i < head.len() && head[i] == n;
                assert(r[i] == x);
            } else if s.contains(x) {
                let k = choose|k: int| 0 <= k < s.len() && s[k] == x;
                if k < init.len() {
                    assert(init[k] == x);
                    assert(init.contains(x));
                    assert(head.contains(x));
                    let i = choose|i: int| 0 <= i < head.len() && head[i] == x;
                    assert(r[i] == x);
                } else {
                    assert(r[head.len() as int] == x);
                }
            }
        }
    }
}

proof fn lemma_external_in(rows: Seq<BranchRow>, g: StackMetadata)
    ensures
        strictly_sorted(external_parents_in(rows, g)),
        forall|p: Seq<char>| #[trigger]
            external_parents_in(rows, g).contains(p) <==> (!g.has_branch(p) && exists|i: int|
                0 <= i < rows.len() && (#[trigger] rows[i]).parent == Some(p)),
    decreases rows.len(),
{
    let ext = external_parents_in(rows, g);
    if rows.len() > 0 {
        let init = rows.drop_last();
        let rest = external_parents_in(init, g);
        lemma_external_in(init, g);
        let added = match rows.last().parent {
            Some(q) => !g.has_branch(q),
            None => false,
        };
        if added {
            lemma_with_name(rest, rows.last().parent.unwrap());
        }
        assert forall|p: Seq<char>| #[trigger]
            ext.contains(p) <==> (!g.has_branch(p) && exists|i: int|
                0 <= i < rows.len() && (#[trigger] rows[i]).parent == Some(p)) by {
            if ext.contains(p) {
                if added && p == rows.last().parent.unwrap() {
                    assert(rows[rows.len() - 1].parent == Some(p));
                } else {
                    assert(rest.contains(p));
                    let i = choose|i: int|
                        0 <= i < init.len() && (#[trigger] init[i]).parent == Some(p);
                    assert(rows[i].parent == Some(p));
                }
            }
            if !g.has_branch(p) && exists|i: int|
                0 <= i < rows.len() && (#[trigger] rows[i]).parent == Some(p) {
                let i = choose|i: int|
                    0 <= i < rows.len() && (#[trigger] rows[i]).parent == Some(p);
                if i < rows.len() - 1 {
                    assert(init[i].parent == Some(p));
                    assert(rest.contains(p));
                }
            }
        }
    }
}

/// The roots of the external trees are the names that some branch gives
/// as its parent without their being in the graph, each once, in
/// increasing order.
pub proof fn lemma_external_parents(g: StackMetadata)
    requires
        g.wf(),
    ensures
        strictly_sorted(external_parents_in(g.rows(), g)),
        forall|p: Seq<char>| #[trigger]
            external_parents_in(g.rows(), g).contains(p) <==> (!g.has_branch(p) && exists|
                b: Seq<char>,
            |
                g.has_branch(b) && #[trigger] g.parent_of(b) == Some(p)),
{
    let rows = g.rows();
    let ext = external_parents_in(rows, g);
    lemma_external_in(rows, g);
    lemma_rows_map(rows);
    assert forall|p: Seq<char>| #[trigger]
        ext.contains(p) <==> (!g.has_branch(p) && exists|b: Seq<char>|
            g.has_branch(b) && #[trigger] g.parent_of(b) == Some(p)) by {
        if ext.contains(p) {
            let i = choose|i: int| 0 <= i < rows.len() && (#[trigger] rows[i]).parent == Some(p);
            let b = rows[i].name;
            assert(g.has_branch(b) && g.parent_of(b) == Some(p));
        }
        if !g.has_branch(p) && exists|b: Seq<char>|
            g.has_branch(b) && #[trigger] g.parent_of(b) == Some(p) {
            let b = choose|b: Seq<char>| g.has_branch(b) && #[trigger] g.parent_of(b) == Some(p);
            let i = choose|i: int| 0 <= i < rows.len() && (#[trigger] rows[i]).name == b;
            assert(rows[i].parent == Some(p));
        }
    }
}

proof fn lemma_standalone_in(rows: Seq<BranchRow>)
    requires
        rows_sorted(rows),
    ensures
        strictly_sorted(standalone_in(rows)),
        forall|b: Seq<char>| #[trigger]
            standalone_in(rows).contains(b) <==> exists|i: int|
                0 <= i < rows.len() && (#[trigger] rows[i]).name == b && rows[i].parent.is_none(),
    decreases rows.len(),
{
    let solo = standalone_in(rows);
    if rows.len() > 0 {
        let init = rows.drop_last();
        let last = rows.last();
        let rest = standalone_in(init);
        assert(rows_sorted(init)) by {
            assert forall|i: int, j: int| 0 <= i < j < init.len() implies name_lt(
                (#[trigger] init[i]).name,
                (#[trigger] init[j]).name,
            ) by {
                assert(name_lt(rows[i].name, rows[j].name));
            }
        }
        lemma_standalone_in(init);
        assert forall|b: Seq<char>| #[trigger]
            solo.contains(b) <==> exists|i: int|
                0 <= i < rows.len() && (#[trigger] rows[i]).name == b
                    && rows[i].parent.is_none() by {
            if solo.contains(b) {
                let k = choose|k: int| 0 <= k < solo.len() && solo[k] == b;
                if k < rest.len() {
                    assert(rest[k] == b);
                    assert(rest.contains(b));
                    let i = choose|i: int|
                        0 <= i < init.len() && (#[trigger] init[i]).name == b
                            && init[i].parent.is_none();
                    assert(rows[i].name == b);
                } else {
                    assert(rows[rows.len() - 1].name == b);
                }
            }
            if exists|i: int|
                0 <= i < rows.len() && (#[trigger] rows[i]).name == b && rows[i].parent.is_none() {
                let i = choose|i: int|
                    0 <= i < rows.len() && (#[trigger] rows[i]).name == b
                        && rows[i].parent.is_none();
                if i < rows.len() - 1 {
                    assert(init[i].name == b);
                    assert(rest.contains(b));
                    let k = choose|k: int| 0 <= k < rest.len() && rest[k] == b;
                    assert(solo[k] == b);
                } else {
                    assert(solo[solo.len() - 1] == b);
                }
            }
        }
        assert forall|i: int, j: int| 0 <= i < j < solo.len() implies name_lt(
            #[trigger] solo[i],
            #[trigger] solo[j],
        ) by {
            if j < rest.len() {
                assert(name_lt(rest[i], rest[j]));
            } else {
                assert(rest[i] == solo[i]);
                assert(rest.contains(rest[i]));
                let k = choose|k: int|
                    0 <= k < init.len() && (#[trigger] init[k]).name == rest[i]
                        && init[k].parent.is_none();
                assert(name_lt(rows[k].name, rows[rows.len() - 1].name));
            }
        }
    }
}

/// The standalone roots are the branches without a recorded parent, each
/// once, in increasing order.
pub proof fn lemma_standalone_roots(g: StackMetadata)
    requires
        g.wf(),
    ensures
        strictly_sorted(standalone_in(g.rows())),
        forall|b: Seq<char>| #[trigger]
            standalone_in(g.rows()).contains(b) <==> (g.has_branch(b) && g@[b].parent.is_none()),
{
    let rows = g.rows();
    let solo = standalone_in(rows);
    lemma_standalone_in(rows);
    lemma_rows_map(rows);
    assert forall|b: Seq<char>|
        #[trigger] solo.contains(b) <==> (g.has_branch(b) && g@[b].parent.is_none()) by {
        if solo.contains(b) {
            let i = choose|i: int|
                0 <= i < rows.len() && (#[trigger] rows[i]).name == b && rows[i].parent.is_none();
            assert(g@.contains_key(rows[i].name));
        }
        if g.has_branch(b) && g@[b].parent.is_none() {
            let i = choose|i: int| 0 <= i < rows.len() && (#[trigger] rows[i]).name == b;
            assert(rows[i].parent.is_none());
        }
    }
}

} // verus!
