//! Laying the forest out as lines of text: the full view draws each tree
//! with connectors, the short view lists each path from a root to a leaf.

use vstd::prelude::*;
use crate::forest::{collect_paths, paths_of, paths_of_first, paths_view, BranchNode, StackRoot};
use crate::names::name_seq;
use crate::text::{join_names, joined};

verus! {

/// One line of the full view: which tree it belongs to, what is drawn
/// before the name, and the name. The line of a root has no connector.
#[derive(Debug)]
pub struct ViewLine {
    pub stack: usize,
    pub prefix: String,
    pub connector: String,
    pub name: String,
}

/// A line of the full view as plain values.
pub struct LineView {
    pub stack: nat,
    pub prefix: Seq<char>,
    pub connector: Seq<char>,
    pub name: Seq<char>,
}

impl View for ViewLine {
    type V = LineView;

    open spec fn view(&self) -> LineView {
        LineView {
            stack: self.stack as nat,
            prefix: self.prefix@,
            connector: self.connector@,
            name: self.name@,
        }
    }
}

/// The lines of a list as plain values.
pub open spec fn lines_view(v: Seq<ViewLine>) -> Seq<LineView> {
    Seq::new(v.len(), |i: int| v[i]@)
}

/// The connector drawn before a branch: one form for the last child,
/// another for the children before it.
pub open spec fn connector_text(is_last: bool) -> Seq<char> {
    if is_last {
        "`--"@
    } else {
        "|--"@
    }
}

/// What is drawn before the lines below a branch, given what is drawn
/// before the branch itself.
pub open spec fn next_prefix_text(prefix: Seq<char>, is_last: bool) -> Seq<char> {
    if is_last {
        prefix + "    "@
    } else {
        prefix + "|   "@
    }
}

/// The lines of `node` and of everything below it.
pub open spec fn branch_lines(node: BranchNode, prefix: Seq<char>, is_last: bool, stack: nat) -> Seq<
    LineView,
>
    decreases node, 0nat,
{
    seq![
        LineView { stack, prefix, connector: connector_text(is_last), name: node.name@ },
    ] + children_lines(
        node.children@,
        node.children@.len(),
        next_prefix_text(prefix, is_last),
        stack,
    )
}

/// The lines of the first `k` of `nodes`, each with everything below it.
pub open spec fn children_lines(nodes: Seq<BranchNode>, k: nat, prefix: Seq<char>, stack: nat) -> Seq<
    LineView,
>
    decreases nodes, k,
{
    if k == 0 || k > nodes.len() {
        Seq::empty()
    } else {
        children_lines(nodes, (k - 1) as nat, prefix, stack) + branch_lines(
            nodes[k - 1],
            prefix,
            k == nodes.len(),
            stack,
        )
    }
}

/// The lines of one tree: the root's name, then its children.
pub open spec fn root_lines(root: StackRoot, stack: nat) -> Seq<LineView> {
    match root {
        StackRoot::ExternalParent { name, children } => seq![
            LineView { stack, prefix: Seq::empty(), connector: Seq::empty(), name: name@ },
        ] + children_lines(children@, children@.len(), Seq::empty(), stack),
        StackRoot::Standalone { node } => seq![
            LineView { stack, prefix: Seq::empty(), connector: Seq::empty(), name: node.name@ },
        ] + children_lines(node.children@, node.children@.len(), Seq::empty(), stack),
    }
}

/// The lines of the first `k` trees.
pub open spec fn forest_lines(roots: Seq<StackRoot>, k: nat) -> Seq<LineView>
    decreases k,
{
    if k == 0 || k > roots.len() {
        Seq::empty()
    } else {
        forest_lines(roots, (k - 1) as nat) + root_lines(roots[k - 1], (k - 1) as nat)
    }
}

/// The text of one line: a root's name alone, any other name after its
/// prefix, its connector and a blank.
pub open spec fn line_text(line: LineView) -> Seq<char> {
    if line.connector.len() == 0 {
        line.name
    } else {
        line.prefix + line.connector + " "@ + line.name
    }
}

/// The paths of one tree, from the root to each leaf.
pub open spec fn root_paths(root: StackRoot) -> Seq<Seq<Seq<char>>> {
    match root {
        StackRoot::ExternalParent { name, children } => paths_of_first(
            children@,
            children@.len(),
            seq![name@],
        ),
        StackRoot::Standalone { node } => paths_of(node, Seq::empty()),
    }
}

/// Adds the lines of `node` and of everything below it.
pub fn render_branch(
    node: &BranchNode,
    prefix: &str,
    is_last: bool,
    stack: usize,
    out: &mut Vec<ViewLine>,
)
    ensures
        lines_view(final(out)@) == lines_view(old(out)@) + branch_lines(
            *node,
            prefix@,
            is_last,
            stack as nat,
        ),
    decreases node, 1nat,
{
    let ghost before = lines_view(out@);
    let connector = if is_last {
        "`--"
    } else {
        "|--"
    };
    let line = ViewLine {
        stack,
        prefix: String::from_str(prefix),
        connector: String::from_str(connector),
        name: node.name.clone(),
    };
    let ghost first = line@;
    out.push(line);
    proof {
        assert(lines_view(out@) =~= before + seq![first]);
    }
    let next = if is_last {
        String::from_str(prefix).concat("    ")
    } else {
        String::from_str(prefix).concat("|   ")
    };
    render_children(&node.children, next.as_str(), stack, out);
    proof {
        assert(lines_view(out@) =~= before + branch_lines(*node, prefix@, is_last, stack as nat));
    }
}

/// Adds the lines of `children`, each with everything below it.
pub fn render_children(children: &Vec<BranchNode>, prefix: &str, stack: usize, out: &mut Vec<
    ViewLine,
>)
    ensures
        lines_view(final(out)@) == lines_view(old(out)@) + children_lines(
            children@,
            children@.len(),
            prefix@,
            stack as nat,
        ),
    decreases children, 0nat,
{
    let ghost before = lines_view(out@);
    let mut i: usize = 0;
    proof {
        assert(lines_view(out@) =~= before + children_lines(children@, 0, prefix@, stack as nat));
    }
    while i < children.len()
        invariant
            i <= children@.len(),
            lines_view(out@) == before + children_lines(
                children@,
                i as nat,
                prefix@,
                stack as nat,
            ),
        decreases children@.len() - i,
    {
        let is_last = i + 1 == children.len();
        render_branch(&children[i], prefix, is_last, stack, out);
        proof {
            assert(lines_view(out@) =~= before + children_lines(
                children@,
                (i + 1) as nat,
                prefix@,
                stack as nat,
            ));
        }
        i += 1;
    }
}

/// The full view: for each tree its root, then its branches, each drawn
/// below its parent.
pub fn render_full_view(roots: &Vec<StackRoot>) -> (r: Vec<ViewLine>)
    ensures
        lines_view(r@) == forest_lines(roots@, roots@.len()),
{
    let mut out: Vec<ViewLine> = Vec::new();
    let mut idx: usize = 0;
    proof {
        assert(lines_view(out@) =~= forest_lines(roots@, 0));
    }
    while idx < roots.len()
        invariant
            idx <= roots@.len(),
            lines_view(out@) == forest_lines(roots@, idx as nat),
        decreases roots@.len() - idx,
    {
        let ghost before = lines_view(out@);
        match &roots[idx] {
            StackRoot::ExternalParent { name, children } => {
                let line = ViewLine {
                    stack: idx,
                    prefix: String::new(),
                    connector: String::new(),
                    name: name.clone(),
                };
                let ghost first = line@;
                out.push(line);
                proof {
                    assert(lines_view(out@) =~= before + seq![first]);
                }
                render_children(children, "", idx, &mut out);
                proof {
                    reveal_strlit("");
                    assert("".view() =~= Seq::<char>::empty());
                }
            },
            StackRoot::Standalone { node } => {
                let line = ViewLine {
                    stack: idx,
                    prefix: String::new(),
                    connector: String::new(),
                    name: node.name.clone(),
                };
                let ghost first = line@;
                out.push(line);
                proof {
                    assert(lines_view(out@) =~= before + seq![first]);
                }
                render_children(&node.children, "", idx, &mut out);
                proof {
                    reveal_strlit("");
                    assert("".view() =~= Seq::<char>::empty());
                }
            },
        }
        proof {
            assert(lines_view(out@) =~= before + root_lines(roots@[idx as int], idx as nat));
        }
        idx += 1;
    }
    out
}

/// The text of one line of the full view.
pub fn line_string(line: &ViewLine) -> (r: String)
    ensures
        r@ == line_text(line@),
{
    if line.connector.as_str().unicode_len() == 0 {
        line.name.clone()
    } else {
        line.prefix.clone().concat(line.connector.as_str()).concat(" ").concat(
            line.name.as_str(),
        )
    }
}

/// The short view of one tree: the path from its root to each leaf.
pub fn render_short_view(root: &StackRoot) -> (r: Vec<Vec<String>>)
    ensures
        paths_view(r@) == root_paths(*root),
{
    let mut lines: Vec<Vec<String>> = Vec::new();
    proof {
        assert(paths_view(lines@) =~= Seq::<Seq<Seq<char>>>::empty());
    }
    match root {
        StackRoot::ExternalParent { name, children } => {
            let mut i: usize = 0;
            proof {
                assert(paths_view(lines@) =~= paths_of_first(children@, 0, seq![name@]));
            }
            while i < children.len()
                invariant
                    i <= children@.len(),
                    paths_view(lines@) == paths_of_first(children@, i as nat, seq![name@]),
                decreases children@.len() - i,
            {
                let mut start: Vec<String> = Vec::new();
                start.push(name.clone());
                proof {
                    assert(name_seq(start@) =~= seq![name@]);
                }
                collect_paths(&children[i], start, &mut lines);
                i += 1;
            }
        },
        StackRoot::Standalone { node } => {
            let start: Vec<String> = Vec::new();
            proof {
                assert(name_seq(start@) =~= Seq::<Seq<char>>::empty());
            }
            collect_paths(node, start, &mut lines);
            proof {
                assert(paths_view(lines@) =~= paths_of(*node, Seq::empty()));
            }
        },
    }
    lines
}

/// The text of one path of the short view: its names with an arrow
/// between each two.
pub fn path_string(path: &Vec<String>) -> (r: String)
    ensures
        r@ == joined(name_seq(path@), " -> "@),
{
    join_names(path, " -> ")
}

} // verus!
