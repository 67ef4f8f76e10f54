//! The branch graph: which branches are tracked, and on which branch each
//! one is stacked.

use vstd::prelude::*;
use crate::names::{compare_names, name_lt, name_seq, same_name, strictly_sorted, NameOrder};
use crate::names::{lemma_name_lt_irreflexive, lemma_name_lt_transitive};

verus! {

/// What the graph records of one tracked branch.
pub struct BranchRecord {
    pub parent: Option<Seq<char>>,
    pub created_at: Seq<char>,
}

/// One tracked branch as the graph stores it: its name and its record.
pub struct BranchRow {
    pub name: Seq<char>,
    pub parent: Option<Seq<char>>,
    pub created_at: Seq<char>,
}

/// The parent and creation time of a tracked branch.
#[derive(Debug)]
pub struct BranchMetadata {
    pub parent: Option<String>,
    pub created_at: String,
}

struct BranchEntry {
    name: String,
    meta: BranchMetadata,
}

/// The tracked branches, each with its recorded parent. A parent need not
/// be tracked itself.
pub struct StackMetadata {
    entries: Vec<BranchEntry>,
}

/// The name held by an optional string.
pub open spec fn opt_name(o: Option<String>) -> Option<Seq<char>> {
    match o {
        Some(s) => Some(s@),
        None => None,
    }
}

/// The record part of a row.
pub open spec fn record_of(row: BranchRow) -> BranchRecord {
    BranchRecord { parent: row.parent, created_at: row.created_at }
}

/// Rows in strictly increasing order of their names.
pub open spec fn rows_sorted(rows: Seq<BranchRow>) -> bool {
    forall|i: int, j: int|
        0 <= i < j < rows.len() ==> name_lt((#[trigger] rows[i]).name, (#[trigger] rows[j]).name)
}

/// The mapping from name to record that a list of rows stands for.
pub open spec fn rows_map(rows: Seq<BranchRow>) -> Map<Seq<char>, BranchRecord>
    decreases rows.len(),
{
    if rows.len() == 0 {
        Map::empty()
    } else {
        rows_map(rows.drop_last()).insert(rows.last().name, record_of(rows.last()))
    }
}

/// The names of the rows whose parent is `name`, in the rows' order.
pub open spec fn children_in(rows: Seq<BranchRow>, name: Seq<char>) -> Seq<Seq<char>>
    decreases rows.len(),
{
    if rows.len() == 0 {
        Seq::empty()
    } else if rows.last().parent == Some(name) {
        children_in(rows.drop_last(), name).push(rows.last().name)
    } else {
        children_in(rows.drop_last(), name)
    }
}

/// Every row's name is a key of the mapping, with the row's record, and the
/// mapping has no other key.
pub proof fn lemma_rows_map(rows: Seq<BranchRow>)
    requires
        rows_sorted(rows),
    ensures
        forall|i: int|
            0 <= i < rows.len() ==> rows_map(rows).contains_key((#[trigger] rows[i]).name)
                && rows_map(rows)[rows[i].name] == record_of(rows[i]),
        forall|k: Seq<char>| #[trigger]
            rows_map(rows).contains_key(k) ==> exists|i: int|
                0 <= i < rows.len() && (#[trigger] rows[i]).name == k,
    decreases rows.len(),
{
    if rows.len() > 0 {
        let init = rows.drop_last();
        lemma_rows_map(init);
        assert forall|i: int| 0 <= i < rows.len() implies rows_map(rows).contains_key(
            (#[trigger] rows[i]).name,
        ) && rows_map(rows)[rows[i].name] == record_of(rows[i]) by {
            if i < rows.len() - 1 {
                assert(init[i] == rows[i]);
                assert(name_lt(rows[i].name, rows[rows.len() - 1].name));
                lemma_name_lt_irreflexive(rows[i].name);
            }
        }
        assert forall|k: Seq<char>| #[trigger] rows_map(rows).contains_key(k) implies exists|
            i: int,
        |
            0 <= i < rows.len() && (#[trigger] rows[i]).name == k by {
            if k == rows.last().name {
                assert(rows[rows.len() - 1].name == k);
            } else {
                let i = choose|i: int| 0 <= i < init.len() && (#[trigger] init[i]).name == k;
                assert(rows[i].name == k);
            }
        }
    }
}

/// The children listed for `name` are exactly the rows whose parent is
/// `name`, each once, in increasing order of their names.
pub proof fn lemma_children_in(rows: Seq<BranchRow>, name: Seq<char>)
    requires
        rows_sorted(rows),
    ensures
        strictly_sorted(children_in(rows, name)),
        forall|c: Seq<char>|
            children_in(rows, name).contains(c) <==> (#[trigger] rows_map(rows).contains_key(c)
                && rows_map(rows)[c].parent == Some(name)),
        forall|i: int|
            0 <= i < children_in(rows, name).len() ==> exists|j: int|
                0 <= j < rows.len() && (#[trigger] rows[j]).name == (#[trigger] children_in(
                    rows,
                    name,
                )[i]),
        children_in(rows, name).len() <= rows.len(),
    decreases rows.len(),
{
    let kids = children_in(rows, name);
    if rows.len() > 0 {
        let init = rows.drop_last();
        let last = rows.last();
        let before = children_in(init, name);
        lemma_children_in(init, name);
        lemma_rows_map(rows);
        lemma_rows_map(init);
        assert forall|i: int| 0 <= i < before.len() implies name_lt(
            #[trigger] before[i],
            last.name,
        ) by {
            let j = choose|j: int| 0 <= j < init.len() && (#[trigger] init[j]).name == before[i];
            assert(rows[j] == init[j]);
            assert(name_lt(rows[j].name, rows[rows.len() - 1].name));
        }
        assert forall|i: int| 0 <= i < kids.len() implies exists|j: int|
            0 <= j < rows.len() && (#[trigger] rows[j]).name == (#[trigger] kids[i]) by {
            if i < before.len() {
                let j = choose|j: int|
                    0 <= j < init.len() && (#[trigger] init[j]).name == before[i];
                assert(rows[j] == init[j]);
            } else {
                assert(rows[rows.len() - 1].name == kids[i]);
            }
        }
        assert forall|c: Seq<char>|
            kids.contains(c) <==> (#[trigger] rows_map(rows).contains_key(c) && rows_map(
                rows,
            )[c].parent == Some(name)) by {
            if kids.contains(c) {
                let i = choose|i: int| 0 <= i < kids.len() && kids[i] == c;
                if i < before.len() {
                    assert(before[i] == c);
                    assert(before.contains(c));
                    assert(name_lt(before[i], last.name));
                    lemma_name_lt_irreflexive(c);
                } else {
                    assert(c == last.name);
                }
            }
            if rows_map(rows).contains_key(c) && rows_map(rows)[c].parent == Some(name) {
                if c == last.name {
                    assert(kids[kids.len() - 1] == c);
                } else {
                    assert(before.contains(c));
                    let i = choose|i: int| 0 <= i < before.len() && before[i] == c;
                    assert(kids[i] == c);
                }
            }
        }
    }
}

/// Replacing the row of a name changes that name's record and nothing else.
proof fn lemma_rows_update(rows: Seq<BranchRow>, i: int, row: BranchRow)
    requires
        rows_sorted(rows),
        0 <= i < rows.len(),
        row.name == rows[i].name,
    ensures
        rows_sorted(rows.update(i, row)),
        rows_map(rows.update(i, row)) == rows_map(rows).insert(row.name, record_of(row)),
{
    let after = rows.update(i, row);
    assert forall|a: int, b: int| 0 <= a < b < after.len() implies name_lt(
        (#[trigger] after[a]).name,
        (#[trigger] after[b]).name,
    ) by {
        assert(name_lt(rows[a].name, rows[b].name));
    }
    lemma_rows_map(rows);
    lemma_rows_map(after);
    let want = rows_map(rows).insert(row.name, record_of(row));
    assert forall|k: Seq<char>| rows_map(after).contains_key(k) <==> want.contains_key(k) by {
        if rows_map(after).contains_key(k) {
            let j = choose|j: int| 0 <= j < after.len() && (#[trigger] after[j]).name == k;
            assert(rows[j].name == k);
        }
        if want.contains_key(k) && k != row.name {
            let j = choose|j: int| 0 <= j < rows.len() && (#[trigger] rows[j]).name == k;
            assert(after[j].name == k);
        }
        if k == row.name {
            assert(after[i].name == k);
        }
    }
    assert forall|k: Seq<char>| rows_map(after).contains_key(k) implies rows_map(after)[k]
        == want[k] by {
        let j = choose|j: int| 0 <= j < after.len() && (#[trigger] after[j]).name == k;
        if j != i {
            assert(after[j] == rows[j]);
            assert(rows[j].name == k);
            if j < i {
                assert(name_lt(rows[j].name, rows[i].name));
            } else {
                assert(name_lt(rows[i].name, rows[j].name));
            }
            lemma_name_lt_irreflexive(k);
        }
    }
    assert(rows_map(after) =~= want);
}

/// Putting a new name's row at its place in the order adds that name with
/// its record and changes nothing else.
proof fn lemma_rows_insert(rows: Seq<BranchRow>, i: int, row: BranchRow)
    requires
        rows_sorted(rows),
        0 <= i <= rows.len(),
        forall|j: int| 0 <= j < i ==> name_lt((#[trigger] rows[j]).name, row.name),
        forall|j: int| i <= j < rows.len() ==> name_lt(row.name, (#[trigger] rows[j]).name),
    ensures
        rows_sorted(rows.insert(i, row)),
        rows_map(rows.insert(i, row)) == rows_map(rows).insert(row.name, record_of(row)),
{
    let after = rows.insert(i, row);
    assert forall|a: int, b: int| 0 <= a < b < after.len() implies name_lt(
        (#[trigger] after[a]).name,
        (#[trigger] after[b]).name,
    ) by {
        if a < i && b > i {
            assert(name_lt(rows[a].name, rows[b - 1].name));
        } else if a < i && b < i {
            assert(name_lt(rows[a].name, rows[b].name));
        } else if a > i {
            assert(name_lt(rows[a - 1].name, rows[b - 1].name));
        } else if a == i {
            assert(name_lt(row.name, rows[b - 1].name));
        } else {
            assert(name_lt(rows[a].name, row.name));
        }
    }
    lemma_rows_map(rows);
    lemma_rows_map(after);
    let want = rows_map(rows).insert(row.name, record_of(row));
    assert forall|k: Seq<char>| rows_map(after).contains_key(k) <==> want.contains_key(k) by {
        if rows_map(after).contains_key(k) {
            let j = choose|j: int| 0 <= j < after.len() && (#[trigger] after[j]).name == k;
            if j < i {
                assert(rows[j].name == k);
            } else if j > i {
                assert(rows[j - 1].name == k);
            }
        }
        if want.contains_key(k) && k != row.name {
            let j = choose|j: int| 0 <= j < rows.len() && (#[trigger] rows[j]).name == k;
            if j < i {
                assert(after[j].name == k);
            } else {
                assert(after[j + 1].name == k);
            }
        }
        if k == row.name {
            assert(after[i].name == k);
        }
    }
    assert forall|k: Seq<char>| rows_map(after).contains_key(k) implies rows_map(after)[k]
        == want[k] by {
        let j = choose|j: int| 0 <= j < after.len() && (#[trigger] after[j]).name == k;
        lemma_name_lt_irreflexive(k);
        if j < i {
            assert(after[j] == rows[j]);
            assert(rows[j].name == k);
        } else if j > i {
            assert(after[j] == rows[j - 1]);
            assert(rows[j - 1].name == k);
        }
    }
    assert(rows_map(after) =~= want);
}

/// Taking a row out removes its name and changes nothing else.
proof fn lemma_rows_remove(rows: Seq<BranchRow>, i: int)
    requires
        rows_sorted(rows),
        0 <= i < rows.len(),
    ensures
        rows_sorted(rows.remove(i)),
        rows_map(rows.remove(i)) == rows_map(rows).remove(rows[i].name),
{
    let after = rows.remove(i);
    assert forall|a: int, b: int| 0 <= a < b < after.len() implies name_lt(
        (#[trigger] after[a]).name,
        (#[trigger] after[b]).name,
    ) by {
        let a0 = if a < i { a } else { a + 1 };
        let b0 = if b < i { b } else { b + 1 };
        assert(name_lt(rows[a0].name, rows[b0].name));
    }
    lemma_rows_map(rows);
    lemma_rows_map(after);
    let want = rows_map(rows).remove(rows[i].name);
    assert forall|k: Seq<char>| rows_map(after).contains_key(k) <==> want.contains_key(k) by {
        lemma_name_lt_irreflexive(k);
        if rows_map(after).contains_key(k) {
            let j = choose|j: int| 0 <= j < after.len() && (#[trigger] after[j]).name == k;
            let j0 = if j < i { j } else { j + 1 };
            assert(rows[j0].name == k);
            if j0 < i {
                assert(name_lt(rows[j0].name, rows[i].name));
            } else {
                assert(name_lt(rows[i].name, rows[j0].name));
            }
        }
        if want.contains_key(k) {
            let j = choose|j: int| 0 <= j < rows.len() && (#[trigger] rows[j]).name == k;
            if j < i {
                assert(after[j].name == k);
            } else {
                assert(after[j - 1].name == k);
            }
        }
    }
    assert forall|k: Seq<char>| rows_map(after).contains_key(k) implies rows_map(after)[k]
        == want[k] by {
        let j = choose|j: int| 0 <= j < after.len() && (#[trigger] after[j]).name == k;
        let j0 = if j < i { j } else { j + 1 };
        assert(after[j] == rows[j0]);
        assert(rows[j0].name == k);
        lemma_name_lt_irreflexive(k);
        if j0 < i {
            assert(name_lt(rows[j0].name, rows[i].name));
        } else {
            assert(name_lt(rows[i].name, rows[j0].name));
        }
    }
    assert(rows_map(after) =~= want);
}

impl View for StackMetadata {
    type V = Map<Seq<char>, BranchRecord>;

    /// The graph as a mapping from each tracked name to its record.
    open spec fn view(&self) -> Map<Seq<char>, BranchRecord> {
        rows_map(self.rows())
    }
}

impl StackMetadata {
    /// The tracked branches in storage order.
    pub closed spec fn rows(&self) -> Seq<BranchRow> {
        Seq::new(
            self.entries@.len(),
            |i: int|
                BranchRow {
                    name: self.entries@[i].name@,
                    parent: opt_name(self.entries@[i].meta.parent),
                    created_at: self.entries@[i].meta.created_at@,
                },
        )
    }

    /// The graph's invariant: branches are stored in increasing order of
    /// their names, so each name is tracked once.
    pub open spec fn wf(&self) -> bool {
        rows_sorted(self.rows())
    }

    /// How many branches are tracked.
    pub open spec fn count(&self) -> nat {
        self.rows().len()
    }

    /// Whether `name` is tracked.
    pub open spec fn has_branch(&self, name: Seq<char>) -> bool {
        self@.contains_key(name)
    }

    /// The recorded parent of `name`, if `name` is tracked and has one.
    pub open spec fn parent_of(&self, name: Seq<char>) -> Option<Seq<char>> {
        if self@.contains_key(name) {
            self@[name].parent
        } else {
            None
        }
    }

    /// The tracked branches whose recorded parent is `name`, in
    /// increasing order of their names.
    pub open spec fn children_of(&self, name: Seq<char>) -> Seq<Seq<char>> {
        children_in(self.rows(), name)
    }

    /// The recorded parent of `name` where that parent is itself a
    /// branch of the graph: the branch one step down the stack.
    pub open spec fn stack_parent(&self, name: Seq<char>) -> Option<Seq<char>> {
        match self.parent_of(name) {
            Some(p) => if self.has_branch(p) {
                Some(p)
            } else {
                None
            },
            None => None,
        }
    }

    /// The branch `k` steps down the stack from `name`, if the stack
    /// goes that far.
    pub open spec fn ancestor(&self, name: Seq<char>, k: nat) -> Option<Seq<char>>
        decreases k,
    {
        if k == 0 {
            Some(name)
        } else {
            match self.stack_parent(name) {
                Some(p) => self.ancestor(p, (k - 1) as nat),
                None => None,
            }
        }
    }

    /// Where a walk down the stack from `name` stands after at most
    /// `steps` steps: it stops early at a branch with no parent in the graph.
    pub open spec fn bottom_from(&self, name: Seq<char>, steps: nat) -> Seq<char>
        decreases steps,
    {
        match self.stack_parent(name) {
            Some(p) => if steps > 0 {
                self.bottom_from(p, (steps - 1) as nat)
            } else {
                name
            },
            None => name,
        }
    }

    /// The bottom of the stack that `name` is in. The walk takes at most
    /// as many steps as there are branches, which is enough unless the
    /// recorded parents form a cycle.
    pub open spec fn stack_bottom(&self, name: Seq<char>) -> Seq<char> {
        self.bottom_from(name, self.count())
    }

    /// Where a walk up the stack from `name` stands after at most `steps`
    /// steps: it moves on only from a branch with exactly one child.
    pub open spec fn top_from(&self, name: Seq<char>, steps: nat) -> Seq<char>
        decreases steps,
    {
        let kids = self.children_of(name);
        if kids.len() == 1 && steps > 0 {
            self.top_from(kids[0], (steps - 1) as nat)
        } else {
            name
        }
    }

    /// The top of the stack above `name`: the first branch upward that is
    /// a leaf or a fork. The walk takes at most as many steps as there are
    /// branches.
    pub open spec fn stack_top(&self, name: Seq<char>) -> Seq<char> {
        self.top_from(name, self.count())
    }

    /// The recorded parents form no cycle: from every branch, following
    /// parents leaves the graph within as many steps as there are
    /// branches.
    pub open spec fn acyclic(&self) -> bool {
        forall|n: Seq<char>|
            self@.contains_key(n) ==> self.stack_parent(#[trigger] self.stack_bottom(n)).is_none()
    }

    /// A graph that tracks nothing.
    pub fn new() -> (r: Self)
        ensures
            r.wf(),
            r@ == Map::<Seq<char>, BranchRecord>::empty(),
            r.count() == 0,
    {
        StackMetadata { entries: Vec::new() }
    }

    /// The number of tracked branches.
    pub fn len(&self) -> (r: usize)
        ensures
            r == self.count(),
    {
        self.entries.len()
    }

    /// Whether no branch is tracked.
    pub fn is_empty(&self) -> (r: bool)
        ensures
            r == (self.count() == 0),
    {
        self.entries.len() == 0
    }

    /// The first position whose name is not before `name`, and whether the
    /// name stored there is `name`.
    fn find_slot(&self, name: &str) -> (r: (usize, bool))
        requires
            self.wf(),
        ensures
            r.0 <= self.rows().len(),
            forall|j: int| 0 <= j < r.0 ==> name_lt((#[trigger] self.rows()[j]).name, name@),
            r.1 ==> r.0 < self.rows().len() && self.rows()[r.0 as int].name == name@,
            !r.1 ==> forall|j: int|
                r.0 <= j < self.rows().len() ==> name_lt(name@, (#[trigger] self.rows()[j]).name),
            r.1 == self@.contains_key(name@),
    {
        let mut i: usize = 0;
        let mut found = false;
        let mut stop = false;
        while !stop && i < self.entries.len()
            invariant
                i <= self.entries@.len(),
                self.entries@.len() == self.rows().len(),
                stop ==> i < self.entries@.len(),
                found ==> stop && self.rows()[i as int].name == name@,
                stop && !found ==> name_lt(name@, self.rows()[i as int].name),
                forall|j: int| 0 <= j < i ==> name_lt((#[trigger] self.rows()[j]).name, name@),
            decreases self.entries@.len() - i + (if stop { 0int } else { 1int }),
        {
            match compare_names(self.entries[i].name.as_str(), name) {
                NameOrder::Before => {
                    i += 1;
                },
                NameOrder::Same => {
                    found = true;
                    stop = true;
                },
                NameOrder::After => {
                    stop = true;
                },
            }
        }
        proof {
            let rows = self.rows();
            lemma_rows_map(rows);
            if found {
                assert(rows[i as int].name == name@);
            } else {
                assert forall|j: int| i <= j < rows.len() implies name_lt(
                    name@,
                    (#[trigger] rows[j]).name,
                ) by {
                    if j > i {
                        assert(name_lt(rows[i as int].name, rows[j].name));
                        lemma_name_lt_transitive(name@, rows[i as int].name, rows[j].name);
                    }
                }
                if self@.contains_key(name@) {
                    let k = choose|k: int| 0 <= k < rows.len() && (#[trigger] rows[k]).name == name@;
                    lemma_name_lt_irreflexive(name@);
                }
            }
        }
        (i, found)
    }

    /// Whether `name` is tracked.
    pub fn contains(&self, name: &str) -> (r: bool)
        requires
            self.wf(),
        ensures
            r == self.has_branch(name@),
    {
        self.find_slot(name).1
    }

    /// The recorded parent of `name`; `None` where `name` is untracked or
    /// has no parent.
    pub fn get_parent(&self, name: &str) -> (r: Option<String>)
        requires
            self.wf(),
        ensures
            opt_name(r) == self.parent_of(name@),
    {
        let (i, found) = self.find_slot(name);
        proof {
            lemma_rows_map(self.rows());
        }
        if found {
            match &self.entries[i].meta.parent {
                Some(p) => Some(p.clone()),
                None => None,
            }
        } else {
            None
        }
    }

    /// What is recorded of `name`, if it is tracked.
    pub fn get(&self, name: &str) -> (r: Option<BranchMetadata>)
        requires
            self.wf(),
        ensures
            r.is_some() == self.has_branch(name@),
            r.is_some() ==> opt_name(r.unwrap().parent) == self@[name@].parent
                && r.unwrap().created_at@ == self@[name@].created_at,
    {
        let (i, found) = self.find_slot(name);
        proof {
            lemma_rows_map(self.rows());
        }
        if found {
            let parent = match &self.entries[i].meta.parent {
                Some(p) => Some(p.clone()),
                None => None,
            };
            Some(BranchMetadata { parent, created_at: self.entries[i].meta.created_at.clone() })
        } else {
            None
        }
    }

    /// The creation time recorded for `name`, if it is tracked.
    pub fn get_created_at(&self, name: &str) -> (r: Option<String>)
        requires
            self.wf(),
        ensures
            r.is_some() == self.has_branch(name@),
            self.has_branch(name@) ==> r.unwrap()@ == self@[name@].created_at,
    {
        let (i, found) = self.find_slot(name);
        proof {
            lemma_rows_map(self.rows());
        }
        if found {
            Some(self.entries[i].meta.created_at.clone())
        } else {
            None
        }
    }

    /// The names of all tracked branches, in increasing order.
    pub fn branch_names(&self) -> (r: Vec<String>)
        requires
            self.wf(),
        ensures
            name_seq(r@) == Seq::new(self.rows().len(), |i: int| self.rows()[i].name),
            strictly_sorted(name_seq(r@)),
            forall|n: Seq<char>| name_seq(r@).contains(n) <==> self.has_branch(n),
    {
        let mut out: Vec<String> = Vec::new();
        let mut i: usize = 0;
        while i < self.entries.len()
            invariant
                i <= self.entries@.len(),
                self.entries@.len() == self.rows().len(),
                out@.len() == i,
                forall|j: int| 0 <= j < i ==> (#[trigger] out@[j])@ == self.rows()[j].name,
            decreases self.entries@.len() - i,
        {
            out.push(self.entries[i].name.clone());
            i += 1;
        }
        proof {
            let rows = self.rows();
            let names = name_seq(out@);
            assert(names =~= Seq::new(rows.len(), |i: int| rows[i].name));
            lemma_rows_map(rows);
            assert forall|n: Seq<char>| names.contains(n) <==> self.has_branch(n) by {
                if names.contains(n) {
                    let j = choose|j: int| 0 <= j < names.len() && names[j] == n;
                    assert(rows[j].name == n);
                }
                if self.has_branch(n) {
                    let j = choose|j: int| 0 <= j < rows.len() && (#[trigger] rows[j]).name == n;
                    assert(names[j] == n);
                }
            }
            assert forall|a: int, b: int| 0 <= a < b < names.len() implies name_lt(
                #[trigger] names[a],
                #[trigger] names[b],
            ) by {
                assert(name_lt(rows[a].name, rows[b].name));
            }
        }
        out
    }
    /// Tracks `name` with the given parent and creation time. A branch
    /// that was tracked under that name before gets the new record.
    pub fn add_branch_at(&mut self, name: String, parent: Option<String>, created_at: String)
        requires
            old(self).wf(),
        ensures
            final(self).wf(),
            final(self)@ == old(self)@.insert(
                name@,
                BranchRecord { parent: opt_name(parent), created_at: created_at@ },
            ),
    {
        let (i, found) = self.find_slot(name.as_str());
        let ghost before = self.rows();
        let ghost row = BranchRow {
            name: name@,
            parent: opt_name(parent),
            created_at: created_at@,
        };
        let entry = BranchEntry { name, meta: BranchMetadata { parent, created_at } };
        if found {
            self.entries.set(i, entry);
            proof {
                assert(self.rows() =~= before.update(i as int, row));
                lemma_rows_update(before, i as int, row);
            }
        } else {
            self.entries.insert(i, entry);
            proof {
                assert(self.rows() =~= before.insert(i as int, row));
                lemma_rows_insert(before, i as int, row);
            }
        }
    }

    /// Stops tracking `name`. Branches stacked on it keep it as their
    /// recorded parent.
    pub fn remove_branch(&mut self, name: &str)
        requires
            old(self).wf(),
        ensures
            final(self).wf(),
            final(self)@ == old(self)@.remove(name@),
    {
        let (i, found) = self.find_slot(name);
        let ghost before = self.rows();
        if found {
            let _ = self.entries.remove(i);
            proof {
                assert(self.rows() =~= before.remove(i as int));
                lemma_rows_remove(before, i as int);
            }
        } else {
            proof {
                assert(self@ =~= old(self)@.remove(name@));
            }
        }
    }

    /// Records `new_parent` as the parent of `name`, keeping its creation
    /// time. An untracked `name` leaves the graph as it is.
    pub fn update_parent(&mut self, name: &str, new_parent: Option<String>)
        requires
            old(self).wf(),
        ensures
            final(self).wf(),
            final(self).count() == old(self).count(),
            old(self).has_branch(name@) ==> final(self)@ == old(self)@.insert(
                name@,
                BranchRecord {
                    parent: opt_name(new_parent),
                    created_at: old(self)@[name@].created_at,
                },
            ),
            !old(self).has_branch(name@) ==> final(self)@ == old(self)@,
    {
        let (i, found) = self.find_slot(name);
        let ghost before = self.rows();
        if found {
            proof {
                lemma_rows_map(before);
            }
            let previous = self.entries.remove(i);
            let ghost row = BranchRow {
                name: name@,
                parent: opt_name(new_parent),
                created_at: previous.meta.created_at@,
            };
            let entry = BranchEntry {
                name: previous.name,
                meta: BranchMetadata { parent: new_parent, created_at: previous.meta.created_at },
            };
            self.entries.insert(i, entry);
            proof {
                assert(self.rows() =~= before.update(i as int, row));
                lemma_rows_update(before, i as int, row);
            }
        }
    }

    /// The branches stacked directly on `name`, in increasing order of
    /// their names.
    pub fn get_children(&self, name: &str) -> (r: Vec<String>)
        requires
            self.wf(),
        ensures
            name_seq(r@) == self.children_of(name@),
    {
        let mut out: Vec<String> = Vec::new();
        let mut i: usize = 0;
        proof {
            assert(self.rows().take(0) =~= Seq::<BranchRow>::empty());
            assert(name_seq(out@) =~= children_in(self.rows().take(0), name@));
        }
        while i < self.entries.len()
            invariant
                i <= self.entries@.len(),
                self.entries@.len() == self.rows().len(),
                name_seq(out@) == children_in(self.rows().take(i as int), name@),
            decreases self.entries@.len() - i,
        {
            let ghost before = out@;
            let is_child = match &self.entries[i].meta.parent {
                Some(p) => same_name(p.as_str(), name),
                None => false,
            };
            if is_child {
                out.push(self.entries[i].name.clone());
            }
            proof {
                let rows = self.rows();
                assert(rows.take(i as int + 1).drop_last() =~= rows.take(i as int));
                assert(rows.take(i as int + 1).last() == rows[i as int]);
                if is_child {
                    assert(name_seq(out@) =~= name_seq(before).push(rows[i as int].name));
                }
            }
            i += 1;
        }
        proof {
            assert(self.rows().take(i as int) =~= self.rows());
        }
        out
    }
    /// Tracks `name` with the given parent, created now.
    pub fn add_branch(&mut self, branch_name: String, parent: Option<String>)
        requires
            old(self).wf(),
        ensures
            final(self).wf(),
            final(self)@ == old(self)@.insert(
                branch_name@,
                BranchRecord {
                    parent: opt_name(parent),
                    created_at: final(self)@[branch_name@].created_at,
                },
            ),
    {
        let created_at = current_timestamp();
        self.add_branch_at(branch_name, parent, created_at);
    }

    /// The top of the stack above `branch_name`: walks up while the
    /// current branch has exactly one child, and stops at a leaf or at a
    /// fork without choosing a side.
    pub fn find_stack_top(&self, branch_name: &str) -> (r: String)
        requires
            self.wf(),
        ensures
            r@ == self.stack_top(branch_name@),
    {
        let mut current: String = branch_name.to_owned();
        let mut steps: usize = self.entries.len();
        let mut stop = false;
        while !stop && steps > 0
            invariant
                self.wf(),
                self.top_from(current@, steps as nat) == self.stack_top(branch_name@),
                stop ==> self.children_of(current@).len() != 1,
            decreases steps + (if stop { 0int } else { 1int }),
        {
            let mut children = self.get_children(current.as_str());
            let ghost listed = children@;
            if children.len() == 1 {
                let child = children.remove(0);
                proof {
                    assert(child@ == name_seq(listed)[0]);
                }
                current = child;
                steps -= 1;
            } else {
                stop = true;
            }
        }
        current
    }

    /// Whether the recorded parents form no cycle.
    pub fn is_acyclic(&self) -> (r: bool)
        requires
            self.wf(),
        ensures
            r == self.acyclic(),
    {
        let mut i: usize = 0;
        while i < self.entries.len()
            invariant
                self.wf(),
                i <= self.entries@.len(),
                self.entries@.len() == self.rows().len(),
                forall|j: int|
                    0 <= j < i ==> self.stack_parent(
                        self.stack_bottom((#[trigger] self.rows()[j]).name),
                    ).is_none(),
            decreases self.entries@.len() - i,
        {
            proof {
                lemma_rows_map(self.rows());
            }
            let low = self.find_stack_bottom(self.entries[i].name.as_str());
            let goes_on = match self.get_parent(low.as_str()) {
                Some(p) => self.contains(p.as_str()),
                None => false,
            };
            if goes_on {
                proof {
                    let n = self.rows()[i as int].name;
                    assert(self@.contains_key(n));
                    assert(self.stack_parent(self.stack_bottom(n)).is_some());
                }
                return false;
            }
            i += 1;
        }
        proof {
            let rows = self.rows();
            lemma_rows_map(rows);
            assert forall|n: Seq<char>| self@.contains_key(n) implies self.stack_parent(
                #[trigger] self.stack_bottom(n),
            ).is_none() by {
                let j = choose|j: int| 0 <= j < rows.len() && (#[trigger] rows[j]).name == n;
                assert(self.stack_parent(self.stack_bottom(rows[j].name)).is_none());
            }
        }
        true
    }

    /// The bottom of the stack that `branch_name` is in: walks down while
    /// the recorded parent is itself in the graph.
    pub fn find_stack_bottom(&self, branch_name: &str) -> (r: String)
        requires
            self.wf(),
        ensures
            r@ == self.stack_bottom(branch_name@),
    {
        let mut current: String = branch_name.to_owned();
        let mut steps: usize = self.entries.len();
        let mut stop = false;
        while !stop && steps > 0
            invariant
                self.wf(),
                self.bottom_from(current@, steps as nat) == self.stack_bottom(branch_name@),
                stop ==> self.stack_parent(current@).is_none(),
            decreases steps + (if stop { 0int } else { 1int }),
        {
            match self.get_parent(current.as_str()) {
                Some(parent) => {
                    if self.contains(parent.as_str()) {
                        current = parent;
                        steps -= 1;
                    } else {
                        stop = true;
                    }
                },
                None => {
                    stop = true;
                },
            }
        }
        current
    }
}

/// `chrono::Utc::now().to_rfc3339()`: the current time in UTC as text.
/// The result depends on the clock, so nothing is claimed of it. The call
/// panics where the clock stands before 1970.
#[verifier::external_body]
fn current_timestamp() -> (r: String) {
    chrono::Utc::now().to_rfc3339()
}

/// The children listed for `name` are exactly the branches whose
/// recorded parent is `name`, each once, in increasing order of their
/// names.
pub proof fn lemma_children_of(g: StackMetadata, name: Seq<char>)
    requires
        g.wf(),
    ensures
        strictly_sorted(g.children_of(name)),
        forall|c: Seq<char>|
            g.children_of(name).contains(c) <==> (#[trigger] g.has_branch(c) && g.parent_of(c)
                == Some(name)),
{
    lemma_children_in(g.rows(), name);
    assert forall|c: Seq<char>|
        g.children_of(name).contains(c) <==> (#[trigger] g.has_branch(c) && g.parent_of(c)
            == Some(name)) by {
        assert(g.has_branch(c) == g@.contains_key(c));
    }
}

/// At a fork, the top of the stack is the fork itself, not one of its
/// children.
pub proof fn lemma_stack_top_at_fork(g: StackMetadata, name: Seq<char>)
    requires
        g.children_of(name).len() >= 2,
    ensures
        g.stack_top(name) == name,
{
}

/// At a leaf, the top of the stack is the leaf.
pub proof fn lemma_stack_top_at_leaf(g: StackMetadata, name: Seq<char>)
    requires
        g.children_of(name).len() == 0,
    ensures
        g.stack_top(name) == name,
{
}

/// A walk down the stack ends at an ancestor of its start, and every
/// branch passed on the way has its parent in the graph.
pub proof fn lemma_bottom_from(g: StackMetadata, name: Seq<char>, steps: nat) -> (k: nat)
    ensures
        k <= steps,
        g.ancestor(name, k) == Some(g.bottom_from(name, steps)),
        forall|j: nat|
            j < k ==> (#[trigger] g.ancestor(name, j)).is_some() && g.stack_parent(
                g.ancestor(name, j).unwrap(),
            ).is_some(),
    decreases steps,
{
    match g.stack_parent(name) {
        Some(p) => {
            if steps > 0 {
                let k0 = lemma_bottom_from(g, p, (steps - 1) as nat);
                let k = k0 + 1;
                assert forall|j: nat| j < k implies (#[trigger] g.ancestor(name, j)).is_some()
                    && g.stack_parent(g.ancestor(name, j).unwrap()).is_some() by {
                    if j > 0 {
                        assert(g.ancestor(name, j) == g.ancestor(p, (j - 1) as nat));
                    }
                }
                k
            } else {
                0
            }
        },
        None => 0,
    }
}

/// In a graph without cycles, the bottom of the stack is the first
/// ancestor whose own parent is absent or not in the graph, and the
/// bottom of that branch is the branch itself.
pub proof fn lemma_stack_bottom(g: StackMetadata, name: Seq<char>)
    requires
        g.wf(),
        g.acyclic(),
    ensures
        g.stack_parent(g.stack_bottom(name)).is_none(),
        g.stack_bottom(g.stack_bottom(name)) == g.stack_bottom(name),
        exists|k: nat|
            k <= g.count() && #[trigger] g.ancestor(name, k) == Some(g.stack_bottom(name))
                && forall|j: nat|
                j < k ==> (#[trigger] g.ancestor(name, j)).is_some() && g.stack_parent(
                    g.ancestor(name, j).unwrap(),
                ).is_some(),
{
    let k = lemma_bottom_from(g, name, g.count());
    assert(g.ancestor(name, k) == Some(g.stack_bottom(name)));
    if !g@.contains_key(name) {
        assert(g.stack_parent(name).is_none());
    }
}

/// A child's first ancestor is its recorded parent, where that parent is
/// in the graph.
pub proof fn lemma_child_step(g: StackMetadata, parent: Seq<char>, child: Seq<char>)
    requires
        g@.contains_key(parent),
        g@.contains_key(child),
        g@[child].parent == Some(parent),
    ensures
        g.stack_parent(child) == Some(parent),
        g.ancestor(child, 1) == Some(parent),
{
    reveal_with_fuel(StackMetadata::ancestor, 2);
}

/// Going `a` steps down and then `b` more is going `a + b` steps down.
pub proof fn lemma_ancestor_add(g: StackMetadata, x: Seq<char>, a: nat, b: nat)
    requires
        g.ancestor(x, a).is_some(),
    ensures
        g.ancestor(x, a + b) == g.ancestor(g.ancestor(x, a).unwrap(), b),
    decreases a,
{
    if a > 0 {
        let p = g.stack_parent(x).unwrap();
        lemma_ancestor_add(g, p, (a - 1) as nat, b);
        assert(g.ancestor(x, a + b) == g.ancestor(p, (a + b - 1) as nat));
    }
}

/// A stack that goes `a + b` steps down goes `a` steps down.
pub proof fn lemma_ancestor_prefix(g: StackMetadata, x: Seq<char>, a: nat, b: nat)
    requires
        g.ancestor(x, a + b).is_some(),
    ensures
        g.ancestor(x, a).is_some(),
    decreases a,
{
    if a > 0 {
        let p = g.stack_parent(x).unwrap();
        assert(g.ancestor(x, a + b) == g.ancestor(p, (a + b - 1) as nat));
        lemma_ancestor_prefix(g, p, (a - 1) as nat, b);
    }
}

/// Where the stack goes more than `steps` steps down, a walk of `steps`
/// steps stands on the ancestor that far down, which has a parent in the
/// graph.
pub proof fn lemma_walk_follows_ancestors(g: StackMetadata, x: Seq<char>, steps: nat)
    requires
        g.ancestor(x, steps + 1).is_some(),
    ensures
        g.ancestor(x, steps) == Some(g.bottom_from(x, steps)),
        g.stack_parent(g.bottom_from(x, steps)).is_some(),
    decreases steps,
{
    reveal_with_fuel(StackMetadata::ancestor, 2);
    if steps > 0 {
        let p = g.stack_parent(x).unwrap();
        assert(g.ancestor(x, steps + 1) == g.ancestor(p, steps));
        lemma_walk_follows_ancestors(g, p, (steps - 1) as nat);
    }
}

/// In a graph without cycles no stack goes further down than there are
/// branches.
pub proof fn lemma_chain_is_short(g: StackMetadata, x: Seq<char>, k: nat)
    requires
        g.acyclic(),
        g.ancestor(x, k).is_some(),
    ensures
        k <= g.count(),
{
    if k > g.count() {
        lemma_ancestor_prefix(g, x, g.count() + 1, (k - g.count() - 1) as nat);
        lemma_walk_follows_ancestors(g, x, g.count());
        lemma_ancestor_prefix(g, x, 1, g.count());
        reveal_with_fuel(StackMetadata::ancestor, 2);
        assert(g.stack_parent(x).is_some());
        assert(g@.contains_key(x));
        assert(g.stack_parent(g.stack_bottom(x)).is_none());
    }
}

proof fn lemma_cycle_goes_on(g: StackMetadata, x: Seq<char>, m: nat, j: nat)
    requires
        m > 0,
        g.ancestor(x, m) == Some(x),
    ensures
        g.ancestor(x, j).is_some(),
    decreases j,
{
    if j < m {
        lemma_ancestor_prefix(g, x, j, (m - j) as nat);
    } else {
        lemma_cycle_goes_on(g, x, m, (j - m) as nat);
        lemma_ancestor_add(g, x, m, (j - m) as nat);
    }
}

/// In a graph without cycles no branch is its own ancestor.
pub proof fn lemma_no_self_ancestor(g: StackMetadata, x: Seq<char>, m: nat)
    requires
        g.acyclic(),
        m > 0,
    ensures
        g.ancestor(x, m) != Some(x),
{
    if g.ancestor(x, m) == Some(x) {
        lemma_cycle_goes_on(g, x, m, g.count() + 1);
        lemma_chain_is_short(g, x, g.count() + 1);
    }
}

/// In a graph without cycles an ancestor lies at one distance only.
pub proof fn lemma_level_unique(g: StackMetadata, x: Seq<char>, z: Seq<char>, k1: nat, k2: nat)
    requires
        g.acyclic(),
        g.ancestor(x, k1) == Some(z),
        g.ancestor(x, k2) == Some(z),
    ensures
        k1 == k2,
{
    if k1 < k2 {
        lemma_ancestor_add(g, x, k1, (k2 - k1) as nat);
        lemma_no_self_ancestor(g, z, (k2 - k1) as nat);
    } else if k2 < k1 {
        lemma_ancestor_add(g, x, k2, (k1 - k2) as nat);
        lemma_no_self_ancestor(g, z, (k1 - k2) as nat);
    }
}

proof fn lemma_top_from(g: StackMetadata, start: Seq<char>, cur: Seq<char>, k: nat, steps: nat)
    requires
        g.wf(),
        g.acyclic(),
        g@.contains_key(cur),
        g.ancestor(cur, k) == Some(start),
        k + steps >= g.count(),
    ensures
        g.children_of(g.top_from(cur, steps)).len() != 1,
        exists|n: nat| #[trigger] g.ancestor(g.top_from(cur, steps), n) == Some(start),
    decreases steps,
{
    let kids = g.children_of(cur);
    if kids.len() == 1 {
        let c = kids[0];
        lemma_children_in(g.rows(), cur);
        assert(kids.contains(c));
        lemma_child_step(g, cur, c);
        lemma_ancestor_add(g, c, 1, k);
        if steps > 0 {
            lemma_top_from(g, start, c, k + 1, (steps - 1) as nat);
        } else {
            lemma_chain_is_short(g, c, k + 1);
        }
    } else {
        assert(g.ancestor(g.top_from(cur, steps), k) == Some(start));
    }
}

/// In a graph without cycles, the top of the stack above a branch of the
/// graph is a leaf or a fork, and lies above that branch or is the branch
/// itself.
pub proof fn lemma_stack_top(g: StackMetadata, name: Seq<char>)
    requires
        g.wf(),
        g.acyclic(),
        g.has_branch(name),
    ensures
        g.children_of(g.stack_top(name)).len() != 1,
        exists|n: nat| #[trigger] g.ancestor(g.stack_top(name), n) == Some(name),
{
    lemma_top_from(g, name, name, 0, g.count());
}

} // verus!
