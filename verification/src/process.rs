//! Processes of a container, as they were seen at one moment.

use crate::decimal::{parse_number, parse_u32};
use crate::entries::Entries;
use crate::text::{
    chars_of, find_char, lines, lines_of, rows, split, split_once, split_text, substring, texts,
};
use vstd::prelude::*;

verus! {

/// A process of a container: a snapshot, which may be out of date as soon as
/// it is taken.
#[derive(Debug)]
pub struct ContainerProcess {
    pub pid: u32,
    /// The user that owns the process.
    pub uid: u32,
    pub name: String,
    pub command_line: Vec<String>,
    /// The working directory, where it could be read.
    pub cwd: Option<String>,
    pub environ: Entries,
}

/// What one `KEY=value` text of an environment adds to a mapping: the text
/// before the first `=` gets the text after it as its value. A text without
/// `=` adds nothing.
pub open spec fn record_variable(m: Map<Seq<char>, Seq<char>>, variable: Seq<char>) -> Map<
    Seq<char>,
    Seq<char>,
> {
    match split_once(variable, '=') {
        Some((key, value)) => m.insert(key, value),
        None => m,
    }
}

/// What the texts `variables`, taken in order, add to a mapping.
pub open spec fn record_variables(
    m: Map<Seq<char>, Seq<char>>,
    variables: Seq<Seq<char>>,
) -> Map<Seq<char>, Seq<char>>
    decreases variables.len(),
{
    if variables.len() == 0 {
        m
    } else {
        record_variables(record_variable(m, variables[0]), variables.drop_first())
    }
}

/// The environment that the texts `envs` describe. Where a variable stands
/// several times, its last value counts.
pub fn get_environ_hashmap(envs: &[String]) -> (out: Entries)
    ensures
        out@ == record_variables(Map::empty(), texts(envs@)),
{
    let mut out = Entries::new();
    let mut i: usize = 0;
    assert(texts(envs@).skip(0) =~= texts(envs@));
    while i < envs.len()
        invariant
            i <= envs@.len(),
            record_variables(out@, texts(envs@).skip(i as int)) == record_variables(
                Map::empty(),
                texts(envs@),
            ),
        decreases envs.len() - i,
    {
        let ghost rest = texts(envs@).skip(i as int);
        assert(rest[0] == envs@[i as int]@);
        assert(rest.drop_first() =~= texts(envs@).skip(i + 1));
        let chars = chars_of(envs[i].as_str());
        let at = find_char(&chars, '=', 0);
        assert(chars@.skip(0) =~= chars@);
        if at < chars.len() {
            let key = substring(&chars, 0, at);
            let value = substring(&chars, at + 1, chars.len());
            out.insert(key, value);
        }
        i += 1;
    }
    out
}

/// The process ids among `pieces`, in order: a piece that writes no number
/// is passed over.
pub open spec fn piece_pids(pieces: Seq<Seq<char>>) -> Seq<u32>
    decreases pieces.len(),
{
    if pieces.len() == 0 {
        Seq::empty()
    } else {
        let before = piece_pids(pieces.drop_last());
        match parse_u32(pieces.last()) {
            Some(pid) => before.push(pid),
            None => before,
        }
    }
}

/// The process ids on the lines `ls`, in order: on each line they stand
/// between spaces.
pub open spec fn line_pids(ls: Seq<Seq<char>>) -> Seq<u32>
    decreases ls.len(),
{
    if ls.len() == 0 {
        Seq::empty()
    } else {
        line_pids(ls.drop_last()) + piece_pids(split(ls.last(), ' '))
    }
}

/// The children that a record of the kernel lists.
pub open spec fn child_pids(record: Seq<char>) -> Seq<u32> {
    line_pids(lines(record))
}

/// The children that were read for a process: those that its record lists,
/// and none where the record could not be read.
pub open spec fn children_read(record: Option<&str>) -> Seq<u32> {
    match record {
        Some(text) => child_pids(text@),
        None => Seq::empty(),
    }
}

/// The children that a record of the kernel lists.
pub fn children_of(record: &str) -> (out: Vec<u32>)
    ensures
        out@ == child_pids(record@),
{
    let ls = lines_of(&chars_of(record));
    let mut out: Vec<u32> = Vec::new();
    let mut i: usize = 0;
    assert(rows(ls@).take(0) =~= Seq::<Seq<char>>::empty());
    while i < ls.len()
        invariant
            i <= ls@.len(),
            rows(ls@) == lines(record@),
            out@ == line_pids(rows(ls@).take(i as int)),
        decreases ls.len() - i,
    {
        let pieces = split_text(&ls[i], ' ');
        let ghost before = out@;
        let mut k: usize = 0;
        assert(rows(pieces@).take(0) =~= Seq::<Seq<char>>::empty());
        assert(before + Seq::<u32>::empty() =~= before);
        while k < pieces.len()
            invariant
                k <= pieces@.len(),
                out@ == before + piece_pids(rows(pieces@).take(k as int)),
            decreases pieces.len() - k,
        {
            let piece = &pieces[k];
            assert(piece@.subrange(0, piece@.len() as int) =~= piece@);
            let parsed = parse_number(piece, 0, piece.len());
            proof {
                let upto = rows(pieces@).take(k + 1);
                assert(upto.drop_last() =~= rows(pieces@).take(k as int));
                assert(upto.last() == piece@);
            }
            match parsed {
                Some(pid) => {
                    out.push(pid);
                    assert(out@ =~= before + piece_pids(rows(pieces@).take(k + 1)));
                },
                None => {},
            }
            k += 1;
        }
        proof {
            assert(rows(pieces@).take(k as int) =~= rows(pieces@));
            let upto = rows(ls@).take(i + 1);
            assert(upto.drop_last() =~= rows(ls@).take(i as int));
            assert(upto.last() == ls@[i as int]@);
        }
        i += 1;
    }
    assert(rows(ls@).take(i as int) =~= rows(ls@));
    out
}

/// The processes below one process, as a tree.
#[derive(Debug, PartialEq, Eq)]
pub struct ProcessTree {
    pub pid: u32,
    pub children: Vec<ProcessTree>,
}

/// The leaves of `tree`, from left to right: the processes without
/// children.
pub open spec fn tree_leaves(tree: ProcessTree) -> Seq<u32>
    decreases tree,
{
    if tree.children@.len() == 0 {
        seq![tree.pid]
    } else {
        forest_leaves(tree.children@)
    }
}

/// The leaves of `trees`, tree after tree.
pub open spec fn forest_leaves(trees: Seq<ProcessTree>) -> Seq<u32>
    decreases trees,
{
    if trees.len() == 0 {
        Seq::empty()
    } else {
        tree_leaves(trees[0]) + forest_leaves(trees.drop_first())
    }
}

/// Appends the leaves of `tree` to `leaves`.
fn collect_leaves(tree: &ProcessTree, leaves: &mut Vec<u32>)
    ensures
        final(leaves)@ == old(leaves)@ + tree_leaves(*tree),
    decreases tree,
{
    if tree.children.len() == 0 {
        leaves.push(tree.pid);
        assert(leaves@ =~= old(leaves)@ + tree_leaves(*tree));
        return ;
    }
    let mut i: usize = 0;
    assert(tree.children@.skip(0) =~= tree.children@);
    while i < tree.children.len()
        invariant
            i <= tree.children@.len(),
            leaves@ + forest_leaves(tree.children@.skip(i as int)) == old(leaves)@ + forest_leaves(
                tree.children@,
            ),
        decreases tree.children@.len() - i,
    {
        let ghost before = leaves@;
        let ghost rest = tree.children@.skip(i as int);
        assert(rest[0] == tree.children@[i as int]);
        assert(rest.drop_first() =~= tree.children@.skip(i + 1));
        collect_leaves(&tree.children[i], leaves);
        assert(leaves@ + forest_leaves(rest.drop_first()) =~= before + forest_leaves(rest));
        i += 1;
    }
    assert(leaves@ + forest_leaves(tree.children@.skip(i as int)) =~= leaves@);
}

/// The leaves of the tree of processes below `root`, from left to right. A
/// process without children is its own leaf.
pub fn get_leaves(root: &ProcessTree) -> (leaves: Vec<u32>)
    ensures
        leaves@ == tree_leaves(*root),
{
    let mut leaves: Vec<u32> = Vec::new();
    collect_leaves(root, &mut leaves);
    assert(Seq::<u32>::empty() + tree_leaves(*root) =~= tree_leaves(*root));
    leaves
}

/// One step of a walk: the process that is last in `pending` leaves it. It is
/// a leaf where it has no children. Else its children are pending after it, the
/// first child last.
pub open spec fn walk_step(state: (Seq<u32>, Seq<u32>), children: Seq<u32>) -> (
    Seq<u32>,
    Seq<u32>,
) {
    let (pending, found) = state;
    if pending.len() == 0 {
        state
    } else if children.len() == 0 {
        (pending.drop_last(), found.push(pending.last()))
    } else {
        (pending.drop_last() + children.reverse(), found)
    }
}

/// A walk over the processes below one process that reads nothing itself:
/// it names the process whose record it needs next, and takes the record.
#[derive(Debug)]
pub struct LeafWalk {
    pending: Vec<u32>,
    leaves: Vec<u32>,
}

impl LeafWalk {
    /// The processes whose records are still to be read: the next one last.
    pub closed spec fn pending(&self) -> Seq<u32> {
        self.pending@
    }

    /// The leaves found so far, from left to right.
    pub closed spec fn found(&self) -> Seq<u32> {
        self.leaves@
    }

    /// The walk over the processes below `root_pid`, before its first step.
    pub fn new(root_pid: u32) -> (walk: Self)
        ensures
            walk.pending() == seq![root_pid],
            walk.found() == Seq::<u32>::empty(),
    {
        let mut pending: Vec<u32> = Vec::new();
        pending.push(root_pid);
        LeafWalk { pending, leaves: Vec::new() }
    }

    /// The process whose record is to be read next, or nothing where the
    /// walk is over.
    pub fn next_pid(&self) -> (r: Option<u32>)
        ensures
            match r {
                Some(pid) => self.pending().len() > 0 && pid == self.pending().last(),
                None => self.pending().len() == 0,
            },
    {
        if self.pending.len() == 0 {
            None
        } else {
            Some(self.pending[self.pending.len() - 1])
        }
    }

    /// Takes the record of the process that `next_pid` named, or nothing
    /// where that record could not be read: such a process counts as one
    /// without children.
    pub fn record(&mut self, record: Option<&str>)
        ensures
            (final(self).pending(), final(self).found()) == walk_step(
                (old(self).pending(), old(self).found()),
                children_read(record),
            ),
    {
        let children = match record {
            Some(text) => children_of(text),
            None => Vec::new(),
        };
        match self.pending.pop() {
            Some(pid) => {
                if children.len() == 0 {
                    self.leaves.push(pid);
                } else {
                    let ghost rest = self.pending@;
                    let mut k: usize = children.len();
                    assert(children@.reverse().take(0) =~= Seq::<u32>::empty());
                    assert(rest + Seq::<u32>::empty() =~= rest);
                    while k > 0
                        invariant
                            k <= children@.len(),
                            self.leaves@ == old(self).leaves@,
                            self.pending@ == rest + children@.reverse().take(children@.len() - k),
                        decreases k,
                    {
                        k -= 1;
                        self.pending.push(children[k]);
                        proof {
                            let turned = children@.reverse();
                            let done = children@.len() - k;
                            assert(turned[done - 1] == children@[k as int]);
                            assert(rest + turned.take(done) =~= (rest + turned.take(done - 1)).push(
                                children@[k as int],
                            ));
                        }
                    }
                    assert(children@.reverse().take(children@.len() as int) =~= children@.reverse());
                }
            },
            None => {},
        }
    }

    /// The leaves found so far, from left to right.
    pub fn leaves(&self) -> (out: &Vec<u32>)
        ensures
            out@ == self.found(),
    {
        &self.leaves
    }
}

/// The process ids of the roots of `trees`, in order.
pub open spec fn root_pids(trees: Seq<ProcessTree>) -> Seq<u32> {
    trees.map_values(|t: ProcessTree| t.pid)
}

/// The walk over `tree`: the step for its root, which is given the roots of
/// its children, and then the walk over each child.
pub open spec fn walk_tree(state: (Seq<u32>, Seq<u32>), tree: ProcessTree) -> (Seq<u32>, Seq<u32>)
    decreases tree,
{
    walk_forest(walk_step(state, root_pids(tree.children@)), tree.children@)
}

/// The walk over `trees`, tree after tree.
pub open spec fn walk_forest(state: (Seq<u32>, Seq<u32>), trees: Seq<ProcessTree>) -> (
    Seq<u32>,
    Seq<u32>,
)
    decreases trees,
{
    if trees.len() == 0 {
        state
    } else {
        walk_forest(walk_tree(state, trees[0]), trees.drop_first())
    }
}

/// A walk that is given, for each process, the children that the tree has
/// for it finds the leaves of the tree, from left to right, and nothing else:
/// when the root of the tree is the next pending process, the walk over the
/// tree takes the root from the pending ones and adds the leaves to those
/// found.
pub proof fn lemma_walk_finds_leaves(state: (Seq<u32>, Seq<u32>), tree: ProcessTree)
    requires
        state.0.len() > 0,
        state.0.last() == tree.pid,
    ensures
        walk_tree(state, tree) == (state.0.drop_last(), state.1 + tree_leaves(tree)),
    decreases tree, 1int,
{
    let children = tree.children@;
    if children.len() == 0 {
        assert(root_pids(children) =~= Seq::<u32>::empty());
        assert(state.1.push(tree.pid) =~= state.1 + tree_leaves(tree));
    } else {
        let after = walk_step(state, root_pids(children));
        lemma_walk_forest(state.0.drop_last(), after.1, children);
        assert(after.0 == state.0.drop_last() + root_pids(children).reverse());
    }
}

/// The walk over trees whose roots are the next pending processes, the
/// first root last, takes them from the pending ones and adds their leaves,
/// tree after tree, to those found.
pub proof fn lemma_walk_forest(rest: Seq<u32>, found: Seq<u32>, trees: Seq<ProcessTree>)
    ensures
        walk_forest((rest + root_pids(trees).reverse(), found), trees) == (
            rest,
            found + forest_leaves(trees),
        ),
    decreases trees, 0int,
{
    let pending = rest + root_pids(trees).reverse();
    if trees.len() == 0 {
        assert(pending =~= rest);
        assert(found + forest_leaves(trees) =~= found);
    } else {
        let others = trees.drop_first();
        assert(root_pids(others) =~= root_pids(trees).drop_first());
        assert(pending.last() == trees[0].pid);
        assert(pending.drop_last() =~= rest + root_pids(others).reverse());
        lemma_walk_finds_leaves((pending, found), trees[0]);
        lemma_walk_forest(rest, found + tree_leaves(trees[0]), others);
        assert(found + tree_leaves(trees[0]) + forest_leaves(others) =~= found + forest_leaves(
            trees,
        ));
    }
}

/// The processes that are there among `found`, in order.
pub open spec fn present(found: Seq<Option<ContainerProcess>>) -> Seq<ContainerProcess>
    decreases found.len(),
{
    if found.len() == 0 {
        Seq::empty()
    } else {
        let before = present(found.drop_last());
        match found.last() {
            Some(process) => before.push(process),
            None => before,
        }
    }
}

impl Clone for ContainerProcess {
    fn clone(&self) -> (out: Self)
        ensures
            out.pid == self.pid,
            out.uid == self.uid,
            out.name == self.name,
            out.command_line@ == self.command_line@,
            out.cwd == self.cwd,
            out.environ@ == self.environ@,
    {
        let mut command_line: Vec<String> = Vec::new();
        let mut i: usize = 0;
        while i < self.command_line.len()
            invariant
                i <= self.command_line@.len(),
                command_line@ == self.command_line@.take(i as int),
            decreases self.command_line.len() - i,
        {
            command_line.push(self.command_line[i].clone());
            assert(command_line@ =~= self.command_line@.take(i + 1));
            i += 1;
        }
        assert(self.command_line@.take(i as int) =~= self.command_line@);
        ContainerProcess {
            pid: self.pid,
            uid: self.uid,
            name: self.name.clone(),
            command_line,
            cwd: match &self.cwd {
                Some(dir) => Some(dir.clone()),
                None => None,
            },
            environ: self.environ.clone(),
        }
    }
}

impl ContainerProcess {
    /// The snapshot of the process `pid`, made of what could be read of it.
    /// There is none where the owner of the process could not be told: the
    /// process has gone.
    pub fn snapshot(
        pid: u32,
        uid: Option<u32>,
        name: String,
        command_line: Vec<String>,
        cwd: Option<String>,
        environ: &[String],
    ) -> (r: Option<ContainerProcess>)
        ensures
            match r {
                Some(process) => {
                    &&& uid == Some(process.uid)
                    &&& process.pid == pid
                    &&& process.name == name
                    &&& process.command_line == command_line
                    &&& process.cwd == cwd
                    &&& process.environ@ == record_variables(Map::empty(), texts(environ@))
                },
                None => uid is None,
            },
    {
        match uid {
            Some(uid) => Some(
                ContainerProcess {
                    pid,
                    uid,
                    name,
                    command_line,
                    cwd,
                    environ: get_environ_hashmap(environ),
                },
            ),
            None => None,
        }
    }
}

/// The leaf processes of a container, from the snapshots that were taken
/// of its leaves, in their order: a leaf of which no snapshot could be taken
/// has gone, and is left out.
pub fn get_process_leaves(found: Vec<Option<ContainerProcess>>) -> (out: Vec<ContainerProcess>)
    ensures
        out@ == present(found@),
{
    let mut rest = found;
    let mut turned: Vec<ContainerProcess> = Vec::new();
    let ghost all = found@;
    assert(all.skip(all.len() as int) =~= Seq::<Option<ContainerProcess>>::empty());
    while rest.len() > 0
        invariant
            rest@.len() <= all.len(),
            rest@ == all.take(rest@.len() as int),
            turned@.reverse() == present(all.skip(rest@.len() as int)),
        decreases rest@.len(),
    {
        let ghost n = rest@.len() as int;
        let ghost before = turned@;
        let last = rest.pop();
        proof {
            lemma_present_first(all.skip(n - 1));
            assert(all.skip(n - 1).drop_first() =~= all.skip(n));
            assert(all.skip(n - 1)[0] == all[n - 1]);
            assert(rest@ =~= all.take(n - 1));
        }
        match last {
            Some(Some(process)) => {
                turned.push(process);
                assert(turned@.reverse() =~= seq![process] + before.reverse());
            },
            _ => {},
        }
    }
    assert(all.skip(0) =~= all);
    let mut out: Vec<ContainerProcess> = Vec::new();
    let ghost wanted = turned@.reverse();
    assert(wanted.take(0) =~= out@);
    while turned.len() > 0
        invariant
            turned@.len() + out@.len() == wanted.len(),
            out@ == wanted.take(out@.len() as int),
            turned@ == wanted.reverse().take(turned@.len() as int),
        decreases turned@.len(),
    {
        let ghost n = turned@.len() as int;
        let ghost done = out@;
        match turned.pop() {
            Some(process) => {
                out.push(process);
                proof {
                    assert(process == wanted.reverse()[n - 1]);
                    assert(wanted.reverse()[n - 1] == wanted[wanted.len() - n]);
                    assert(out@ =~= wanted.take(done.len() as int + 1));
                    assert(turned@ =~= wanted.reverse().take(n - 1));
                }
            },
            None => {},
        }
    }
    assert(wanted.take(wanted.len() as int) =~= wanted);
    out
}

/// The processes that are there among `found`: the first, where it is
/// there, and then those among the others.
proof fn lemma_present_first(found: Seq<Option<ContainerProcess>>)
    requires
        found.len() > 0,
    ensures
        present(found) == match found[0] {
            Some(process) => seq![process] + present(found.drop_first()),
            None => present(found.drop_first()),
        },
    decreases found.len(),
{
    if found.len() == 1 {
        assert(found.drop_last() =~= Seq::<Option<ContainerProcess>>::empty());
        assert(found.drop_first() =~= Seq::<Option<ContainerProcess>>::empty());
        assert(present(found.drop_last()) =~= Seq::<ContainerProcess>::empty());
        match found[0] {
            Some(process) => {
                assert(present(found) =~= seq![process]);
                assert(seq![process] + present(found.drop_first()) =~= seq![process]);
            },
            None => {},
        }
    } else {
        let init = found.drop_last();
        lemma_present_first(init);
        assert(init[0] == found[0]);
        assert(init.drop_first() =~= found.drop_first().drop_last());
        assert(found.drop_first().last() == found.last());
        let tail = present(found.drop_first().drop_last());
        match (found[0], found.last()) {
            (Some(first), Some(last)) => {
                assert((seq![first] + tail).push(last) =~= seq![first] + tail.push(last));
            },
            _ => {},
        }
    }
}

} // verus!
