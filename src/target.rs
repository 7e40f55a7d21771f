use vstd::prelude::*;
use crate::error::Error;
use crate::reach::{lemma_cycle_found_is_real, lemma_real_cycle_found, reaches_by_steps};

verus! {

/// A compile option: the C++ language standard to compile against.
#[derive(PartialEq, Eq, Structural, Clone, Copy, Debug)]
pub enum Opt {
    Cpp11,
    Cpp14,
    Cpp17,
    Cpp20,
    Cpp23,
}

/// A first-party library.
pub struct Library {
    /// Dependencies that propagate to everything depending on this library.
    pub deps: Vec<u32>,
    /// Source files compiled into this library.
    pub sources: Vec<String>,
    /// Dependencies used only when compiling this library's own sources.
    pub source_deps: Vec<u32>,
}

/// An executable.
pub struct Exe {
    /// Dependencies needed to build the executable.
    pub deps: Vec<u32>,
    /// Sources compiled into the executable.
    pub sources: Vec<String>,
}

/// A node of the dependency graph.
pub enum Node {
    /// A directory added to the header search path.
    Include(String),
    /// A group of compile options.
    Opts(Vec<Opt>),
    /// A prebuilt static archive.
    StaticLib(String),
    /// A prebuilt shared object.
    SharedLib(String),
    /// A named bundle of other nodes, contributing nothing itself.
    Group(Vec<u32>),
    Library(Library),
    Exe(Exe),
}

/// The kind of a node, used to pick nodes out of a traversal.
#[derive(PartialEq, Eq, Structural, Clone, Copy, Debug)]
pub enum Kind {
    Include,
    Opts,
    StaticLib,
    SharedLib,
    Group,
    Library,
    Exe,
}

pub open spec fn kind_of(n: Node) -> Kind {
    match n {
        Node::Include(_) => Kind::Include,
        Node::Opts(_) => Kind::Opts,
        Node::StaticLib(_) => Kind::StaticLib,
        Node::SharedLib(_) => Kind::SharedLib,
        Node::Group(_) => Kind::Group,
        Node::Library(_) => Kind::Library,
        Node::Exe(_) => Kind::Exe,
    }
}

/// The edges of a node that a dependent's traversal follows: a group's
/// members, a library's `deps`, an executable's `deps`.
pub open spec fn prop_edges(n: Node) -> Seq<u32> {
    match n {
        Node::Group(m) => m@,
        Node::Library(l) => l.deps@,
        Node::Exe(e) => e.deps@,
        _ => Seq::empty(),
    }
}

/// Every dependency edge of a node: a library's `source_deps` too.
pub open spec fn all_edges(n: Node) -> Seq<u32> {
    match n {
        Node::Library(l) => l.deps@ + l.source_deps@,
        _ => prop_edges(n),
    }
}

pub open spec fn succ(n: Node, all: bool) -> Seq<u32> {
    if all {
        all_edges(n)
    } else {
        prop_edges(n)
    }
}

/// The dependency graph of a project; nodes refer to each other by index.
pub struct Graph {
    pub targets: Vec<Node>,
}

/// Every index that any node refers to names a node.
pub open spec fn refs_valid(nodes: Seq<Node>) -> bool {
    forall|i: int, j: int|
        0 <= i < nodes.len() && 0 <= j < all_edges(nodes[i]).len() ==> (#[trigger] all_edges(
            nodes[i],
        )[j] as int) < nodes.len()
}

/// `s` with the items of `e` pushed in reverse, so that `e`'s first item ends
/// on top.
pub open spec fn push_rev(s: Seq<u32>, e: Seq<u32>) -> Seq<u32>
    decreases e.len(),
{
    if e.len() == 0 {
        s
    } else {
        push_rev(s.push(e.last()), e.drop_last())
    }
}

/// How many of the nodes below `n` are not yet in `visited`.
pub open spec fn unvisited(n: nat, visited: Seq<u32>) -> nat
    decreases n,
{
    if n == 0 {
        0
    } else {
        unvisited((n - 1) as nat, visited) + if visited.contains((n - 1) as u32) {
            0nat
        } else {
            1nat
        }
    }
}

pub proof fn lemma_unvisited_push(n: nat, visited: Seq<u32>, x: u32)
    requires
        (x as nat) < n,
        !visited.contains(x),
        n <= u32::MAX + 1,
    ensures
        unvisited(n, visited.push(x)) + 1 == unvisited(n, visited),
    decreases n,
{
    if n > 0 {
        if (x as nat) < n - 1 {
            lemma_unvisited_push((n - 1) as nat, visited, x);
        } else {
            lemma_unvisited_same((n - 1) as nat, visited, x);
        }
        assert(visited.push(x)[visited.len() as int] == x);
        assert forall|y: u32| y != x implies visited.push(x).contains(y) == visited.contains(y) by {
            if visited.contains(y) {
                let k = choose|k: int| 0 <= k < visited.len() && visited[k] == y;
                assert(visited.push(x)[k] == y);
            }
            if visited.push(x).contains(y) {
                let k = choose|k: int| 0 <= k < visited.len() + 1 && visited.push(x)[k] == y;
                assert(visited[k] == y);
            }
        }
    }
}

pub proof fn lemma_unvisited_same(n: nat, visited: Seq<u32>, x: u32)
    requires
        (x as nat) >= n,
        n <= u32::MAX + 1,
    ensures
        unvisited(n, visited.push(x)) == unvisited(n, visited),
    decreases n,
{
    if n > 0 {
        lemma_unvisited_same((n - 1) as nat, visited, x);
        let y = (n - 1) as u32;
        if visited.contains(y) {
            let k = choose|k: int| 0 <= k < visited.len() && visited[k] == y;
            assert(visited.push(x)[k] == y);
        }
        if visited.push(x).contains(y) {
            let k = choose|k: int| 0 <= k < visited.len() + 1 && visited.push(x)[k] == y;
            assert(visited[k] == y);
        }
    }
}

/// How many of a graph's indices a `u32` can name.
pub open spec fn index_bound(n: nat) -> nat {
    if n <= u32::MAX + 1 {
        n
    } else {
        (u32::MAX + 1) as nat
    }
}

pub proof fn lemma_contains_push(s: Seq<u32>, x: u32, y: u32)
    ensures
        s.push(x).contains(y) == (s.contains(y) || y == x),
{
    assert(s.push(x)[s.len() as int] == x);
    if s.contains(y) {
        let k = choose|k: int| 0 <= k < s.len() && s[k] == y;
        assert(s.push(x)[k] == y);
    }
}

/// Depth-first traversal from the nodes on `stack` (its last item on top),
/// skipping indices already in `visited` and indices that name no node. Each
/// node reached is appended to `visited` when first popped, so the result
/// lists nodes in first-visit (pre-order) order, each at most once.
pub open spec fn walk(nodes: Seq<Node>, stack: Seq<u32>, visited: Seq<u32>, all: bool) -> Seq<u32>
    decreases unvisited(index_bound(nodes.len()), visited), stack.len(),
    via walk_decreases
{
    if stack.len() == 0 {
        visited
    } else {
        let top = stack.last();
        let rest = stack.drop_last();
        if (top as int) >= nodes.len() || visited.contains(top) {
            walk(nodes, rest, visited, all)
        } else {
            walk(nodes, push_rev(rest, succ(nodes[top as int], all)), visited.push(top), all)
        }
    }
}

#[via_fn]
proof fn walk_decreases(nodes: Seq<Node>, stack: Seq<u32>, visited: Seq<u32>, all: bool) {
    if stack.len() != 0 {
        let top = stack.last();
        if !((top as int) >= nodes.len() || visited.contains(top)) {
            lemma_unvisited_push(index_bound(nodes.len()), visited, top);
        }
    }
}

fn copy_ids(src: &Vec<u32>, dst: &mut Vec<u32>)
    ensures
        final(dst)@ == old(dst)@ + src@,
{
    let mut i: usize = 0;
    while i < src.len()
        invariant
            i <= src@.len(),
            dst@ == old(dst)@ + src@.take(i as int),
        decreases src@.len() - i,
    {
        dst.push(src[i]);
        i = i + 1;
        assert(old(dst)@ + src@.take(i as int) =~= dst@);
    }
    assert(src@.take(src@.len() as int) =~= src@);
}

/// The edges of a node that a traversal follows.
fn successors(n: &Node, all: bool) -> (r: Vec<u32>)
    ensures
        r@ == succ(*n, all),
{
    let mut r: Vec<u32> = Vec::new();
    match n {
        Node::Group(m) => copy_ids(m, &mut r),
        Node::Library(l) => {
            copy_ids(&l.deps, &mut r);
            if all {
                copy_ids(&l.source_deps, &mut r);
            }
        },
        Node::Exe(e) => copy_ids(&e.deps, &mut r),
        _ => {},
    }
    assert(r@ =~= succ(*n, all));
    r
}

/// Pushes the items of `e` onto `stack` in reverse.
fn push_rev_exec(stack: &mut Vec<u32>, e: &Vec<u32>)
    ensures
        final(stack)@ == push_rev(old(stack)@, e@),
{
    let mut j: usize = e.len();
    assert(e@.take(j as int) =~= e@);
    while j > 0
        invariant
            j <= e@.len(),
            push_rev(stack@, e@.take(j as int)) == push_rev(old(stack)@, e@),
        decreases j,
    {
        let ghost t = e@.take(j as int);
        assert(t.last() == e@[j - 1]);
        assert(t.drop_last() =~= e@.take(j - 1));
        j = j - 1;
        stack.push(e[j]);
    }
    assert(e@.take(0) =~= Seq::<u32>::empty());
}

/// The nodes reached from `root` through propagated edges, `root` first, in
/// first-visit order.
pub open spec fn closure_of(nodes: Seq<Node>, root: u32) -> Seq<u32> {
    walk(nodes, seq![root], Seq::empty(), false)
}

/// The nodes whose dependencies apply when compiling the sources of `t`:
/// `t` itself, then what its `deps` and (for a library) `source_deps` reach
/// through propagated edges.
pub open spec fn source_closure_of(nodes: Seq<Node>, t: u32) -> Seq<u32> {
    walk(nodes, push_rev(Seq::empty(), all_edges(nodes[t as int])), seq![t], false)
}

/// The indices of `ids` that name a node of one of the given kinds, in order.
pub open spec fn select(nodes: Seq<Node>, ids: Seq<u32>, kinds: Seq<Kind>) -> Seq<u32>
    decreases ids.len(),
{
    if ids.len() == 0 {
        ids
    } else {
        let prev = select(nodes, ids.drop_last(), kinds);
        let x = ids.last();
        if (x as int) < nodes.len() && kinds.contains(kind_of(nodes[x as int])) {
            prev.push(x)
        } else {
            prev
        }
    }
}

/// Whether `x` can reach itself through dependency edges of any kind, as the
/// full traversal from its successors finds.
pub open spec fn on_cycle(nodes: Seq<Node>, x: u32) -> bool {
    walk(nodes, push_rev(Seq::empty(), all_edges(nodes[x as int])), Seq::empty(), true).contains(x)
}

/// Some node leads back to itself by a path of at least one step over
/// dependency edges of every kind.
pub open spec fn has_cycle(nodes: Seq<Node>) -> bool {
    exists|x: u32| (x as int) < nodes.len() && reaches_by_steps(nodes, x, x, true)
}

pub fn kind(n: &Node) -> (r: Kind)
    ensures
        r == kind_of(*n),
{
    match n {
        Node::Include(_) => Kind::Include,
        Node::Opts(_) => Kind::Opts,
        Node::StaticLib(_) => Kind::StaticLib,
        Node::SharedLib(_) => Kind::SharedLib,
        Node::Group(_) => Kind::Group,
        Node::Library(_) => Kind::Library,
        Node::Exe(_) => Kind::Exe,
    }
}

fn has_kind(kinds: &Vec<Kind>, k: Kind) -> (r: bool)
    ensures
        r == kinds@.contains(k),
{
    let mut i: usize = 0;
    while i < kinds.len()
        invariant
            i <= kinds@.len(),
            forall|j: int| 0 <= j < i ==> kinds@[j] != k,
        decreases kinds@.len() - i,
    {
        if kinds[i] == k {
            return true;
        }
        i = i + 1;
    }
    false
}

fn contains_id(ids: &Vec<u32>, x: u32) -> (r: bool)
    ensures
        r == ids@.contains(x),
{
    let mut i: usize = 0;
    while i < ids.len()
        invariant
            i <= ids@.len(),
            forall|j: int| 0 <= j < i ==> ids@[j] != x,
        decreases ids@.len() - i,
    {
        if ids[i] == x {
            return true;
        }
        i = i + 1;
    }
    false
}

impl Graph {
    /// Keeps the indices of `ids` that name a node of one of `kinds`.
    pub fn select(&self, ids: &Vec<u32>, kinds: &Vec<Kind>) -> (r: Vec<u32>)
        ensures
            r@ == select(self.targets@, ids@, kinds@),
    {
        let mut r: Vec<u32> = Vec::new();
        let mut i: usize = 0;
        while i < ids.len()
            invariant
                i <= ids@.len(),
                r@ == select(self.targets@, ids@.take(i as int), kinds@),
            decreases ids@.len() - i,
        {
            let x = ids[i];
            assert(ids@.take(i + 1).drop_last() =~= ids@.take(i as int));
            if (x as usize) < self.targets.len() && has_kind(kinds, kind(&self.targets[x as usize])) {
                r.push(x);
            }
            i = i + 1;
        }
        assert(ids@.take(ids@.len() as int) =~= ids@);
        r
    }

    /// The nodes of the given kinds among those that `root` reaches through
    /// propagated edges, in first-visit order.
    pub fn closure(&self, root: u32, kinds: &Vec<Kind>) -> (r: Result<Vec<u32>, Error>)
        requires
            self.targets@.len() <= u32::MAX,
        ensures
            (root as int) >= self.targets@.len() ==> (r matches Err(Error::UnknownNode(k)) && k
                == root),
            (root as int) < self.targets@.len() ==> (r matches Ok(v) && v@ == select(
                self.targets@,
                closure_of(self.targets@, root),
                kinds@,
            )),
    {
        if (root as usize) >= self.targets.len() {
            return Err(Error::UnknownNode(root));
        }
        let stack = vec![root];
        let visited: Vec<u32> = Vec::new();
        assert(stack@ =~= seq![root]);
        assert(visited@ =~= Seq::<u32>::empty());
        let ids = self.walk_exec(stack, visited, false);
        Ok(self.select(&ids, kinds))
    }

    /// The nodes of the given kinds that apply when compiling the sources of
    /// node `t`, in first-visit order.
    pub fn source_closure(&self, t: u32, kinds: &Vec<Kind>) -> (r: Result<Vec<u32>, Error>)
        requires
            self.targets@.len() <= u32::MAX,
        ensures
            (t as int) >= self.targets@.len() ==> (r matches Err(Error::UnknownNode(k)) && k == t),
            (t as int) < self.targets@.len() ==> (r matches Ok(v) && v@ == select(
                self.targets@,
                source_closure_of(self.targets@, t),
                kinds@,
            )),
    {
        if (t as usize) >= self.targets.len() {
            return Err(Error::UnknownNode(t));
        }
        let ids = self.source_ids(t);
        Ok(self.select(&ids, kinds))
    }

    /// Every node that applies when compiling the sources of node `t`.
    pub(crate) fn source_ids(&self, t: u32) -> (r: Vec<u32>)
        requires
            self.targets@.len() <= u32::MAX,
            (t as int) < self.targets@.len(),
        ensures
            r@ == source_closure_of(self.targets@, t),
    {
        let e = successors(&self.targets[t as usize], true);
        let mut stack: Vec<u32> = Vec::new();
        assert(stack@ =~= Seq::<u32>::empty());
        push_rev_exec(&mut stack, &e);
        let visited = vec![t];
        assert(visited@ =~= seq![t]);
        self.walk_exec(stack, visited, false)
    }

    /// Checks that every reference names a node and that no node depends on
    /// itself.
    pub fn validate(&self) -> (r: Result<(), Error>)
        requires
            self.targets@.len() <= u32::MAX,
        ensures
            !refs_valid(self.targets@) <==> (r matches Err(Error::DanglingRef(_))),
            refs_valid(self.targets@) && has_cycle(self.targets@) ==> (r matches Err(
                Error::Cycle(x),
            ) && (x as int) < self.targets@.len() && reaches_by_steps(self.targets@, x, x, true)),
            refs_valid(self.targets@) && !has_cycle(self.targets@) ==> r is Ok,
    {
        let n = self.targets.len();
        let mut i: usize = 0;
        while i < n
            invariant
                n == self.targets@.len(),
                n <= u32::MAX,
                i <= n,
                forall|a: int, b: int|
                    0 <= a < i && 0 <= b < all_edges(self.targets@[a]).len() ==> (#[trigger] all_edges(
                        self.targets@[a],
                    )[b] as int) < n,
            decreases n - i,
        {
            let e = successors(&self.targets[i], true);
            let mut j: usize = 0;
            while j < e.len()
                invariant
                    n == self.targets@.len(),
                    i < n,
                    e@ == all_edges(self.targets@[i as int]),
                    j <= e@.len(),
                    forall|b: int| 0 <= b < j ==> (e@[b] as int) < n,
                decreases e@.len() - j,
            {
                if (e[j] as usize) >= n {
                    return Err(Error::DanglingRef(i as u32));
                }
                j = j + 1;
            }
            i = i + 1;
        }
        let mut x: usize = 0;
        while x < n
            invariant
                n == self.targets@.len(),
                n <= u32::MAX,
                x <= n,
                refs_valid(self.targets@),
                forall|y: u32| (y as int) < x ==> !on_cycle(self.targets@, y),
            decreases n - x,
        {
            let e = successors(&self.targets[x], true);
            let mut stack: Vec<u32> = Vec::new();
            assert(stack@ =~= Seq::<u32>::empty());
            push_rev_exec(&mut stack, &e);
            let visited: Vec<u32> = Vec::new();
            assert(visited@ =~= Seq::<u32>::empty());
            let reached = self.walk_exec(stack, visited, true);
            if contains_id(&reached, x as u32) {
                proof {
                    lemma_cycle_found_is_real(self.targets@, x as u32);
                }
                return Err(Error::Cycle(x as u32));
            }
            x = x + 1;
        }
        proof {
            assert forall|y: u32|
                (y as int) < n implies !reaches_by_steps(self.targets@, y, y, true) by {
                if reaches_by_steps(self.targets@, y, y, true) {
                    lemma_real_cycle_found(self.targets@, y);
                }
            }
        }
        Ok(())
    }

    /// Appends a node and returns its index.
    pub fn add(&mut self, node: Node) -> (r: u32)
        requires
            old(self).targets@.len() < u32::MAX,
        ensures
            r as int == old(self).targets@.len(),
            final(self).targets@ == old(self).targets@.push(node),
    {
        let r = self.targets.len() as u32;
        self.targets.push(node);
        r
    }

    /// The node at an index.
    pub fn get(&self, i: u32) -> (r: Result<&Node, Error>)
        ensures
            (i as int) < self.targets@.len() ==> r == Ok::<&Node, Error>(&self.targets@[i as int]),
            (i as int) >= self.targets@.len() ==> (r matches Err(Error::UnknownNode(k)) && k == i),
    {
        if (i as usize) < self.targets.len() {
            Ok(&self.targets[i as usize])
        } else {
            Err(Error::UnknownNode(i))
        }
    }

    /// Runs the traversal that `walk` describes.
    fn walk_exec(&self, stack: Vec<u32>, visited: Vec<u32>, all: bool) -> (r: Vec<u32>)
        requires
            self.targets@.len() <= u32::MAX,
            forall|k: int| 0 <= k < visited@.len() ==> (visited@[k] as int) < self.targets@.len(),
        ensures
            r@ == walk(self.targets@, stack@, visited@, all),
    {
        let n = self.targets.len();
        let ghost nodes = self.targets@;
        let ghost goal = walk(nodes, stack@, visited@, all);
        let mut marks: Vec<bool> = Vec::new();
        let mut i: usize = 0;
        while i < n
            invariant
                n == nodes.len(),
                i <= n,
                marks@.len() == i,
                forall|k: int| 0 <= k < i ==> marks@[k] == false,
            decreases n - i,
        {
            marks.push(false);
            i = i + 1;
        }
        let mut j: usize = 0;
        while j < visited.len()
            invariant
                n == nodes.len(),
                n <= u32::MAX,
                marks@.len() == n,
                j <= visited@.len(),
                forall|k: int| 0 <= k < visited@.len() ==> (visited@[k] as int) < n,
                forall|k: int|
                    0 <= k < n ==> marks@[k] == visited@.take(j as int).contains(k as u32),
            decreases visited@.len() - j,
        {
            proof {
                assert(visited@.take(j + 1) =~= visited@.take(j as int).push(visited@[j as int]));
                assert forall|y: u32| #[trigger]
                    visited@.take(j + 1).contains(y) == (visited@.take(j as int).contains(y) || y
                        == visited@[j as int]) by {
                    lemma_contains_push(visited@.take(j as int), visited@[j as int], y);
                }
            }
            marks.set(visited[j] as usize, true);
            j = j + 1;
        }
        assert(visited@.take(visited@.len() as int) =~= visited@);
        let mut stack = stack;
        let mut out = visited;
        while stack.len() > 0
            invariant
                n == nodes.len(),
                n <= u32::MAX,
                nodes == self.targets@,
                marks@.len() == n,
                forall|k: int| 0 <= k < n ==> marks@[k] == out@.contains(k as u32),
                walk(nodes, stack@, out@, all) == goal,
            decreases unvisited(index_bound(n as nat), out@), stack@.len(),
        {
            let top = stack.pop().unwrap();
            if (top as usize) < n && !marks[top as usize] {
                proof {
                    lemma_unvisited_push(index_bound(n as nat), out@, top);
                }
                assert forall|y: u32| #[trigger] out@.push(top).contains(y) == (out@.contains(y) || y
                    == top) by {
                    lemma_contains_push(out@, top, y);
                }
                marks.set(top as usize, true);
                let e = successors(&self.targets[top as usize], all);
                push_rev_exec(&mut stack, &e);
                out.push(top);
            }
        }
        out
    }
}

} // verus!
