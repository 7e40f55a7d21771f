use vstd::prelude::*;
use crate::defs::{Config, define_flags, definitions, get_definitions, pairs_view, strings_view};
use crate::error::Error;
use crate::plan::{Part, gather, node_args, plan, plan_args, std_flag};
use crate::reach::{is_path, reaches_by_steps, step_ok};
use crate::target::{Exe, Graph, Node, all_edges, has_cycle, push_rev, refs_valid, source_closure_of};

verus! {

/// The compiler arguments for one executable with no dependencies:
/// definitions, the edition flag, `-o build/<name>`, its main source.
pub open spec fn bin_args(
    defs: Seq<(Seq<char>, Seq<char>)>,
    edition: Seq<char>,
    name: Seq<char>,
    path: Seq<char>,
) -> Seq<Seq<char>> {
    define_flags(defs) + seq![
        std_flag(edition),
        seq!['-', 'o'],
        seq!['b', 'u', 'i', 'l', 'd', '/'] + name,
        path,
    ]
}

/// A graph with no edges has no dangling reference and no cycle.
pub proof fn lemma_edgeless_valid(nodes: Seq<Node>)
    requires
        forall|i: int| 0 <= i < nodes.len() ==> (#[trigger] all_edges(nodes[i])).len() == 0,
    ensures
        refs_valid(nodes),
        !has_cycle(nodes),
{
    assert forall|x: u32| (x as int) < nodes.len() implies !reaches_by_steps(nodes, x, x, true) by {
        if reaches_by_steps(nodes, x, x, true) {
            let p = choose|p: Seq<u32>| #[trigger]
                is_path(nodes, p, true) && p.len() >= 2 && p[0] == x && p.last() == x;
            assert(step_ok(nodes, p, 0, true));
        }
    }
}

proof fn lemma_edgeless_plan(
    nodes: Seq<Node>,
    i: u32,
    defs: Seq<(Seq<char>, Seq<char>)>,
    edition: Seq<char>,
    name: Seq<char>,
    path: Seq<char>,
)
    requires
        (i as int) < nodes.len(),
        nodes[i as int] matches Node::Exe(e) && e.deps@.len() == 0 && strings_view(e.sources@)
            == seq![path],
    ensures
        plan_args(nodes, i, defs, edition, seq!['b', 'u', 'i', 'l', 'd'], name) == bin_args(
            defs,
            edition,
            name,
            path,
        ),
{
    let e = all_edges(nodes[i as int]);
    assert(e =~= Seq::<u32>::empty());
    assert(push_rev(Seq::empty(), e) == Seq::<u32>::empty());
    let ids = source_closure_of(nodes, i);
    assert(ids == seq![i]);
    assert(seq![i].drop_last() =~= Seq::<u32>::empty());
    assert(gather(nodes, Seq::<u32>::empty(), Part::Includes) =~= Seq::<Seq<char>>::empty());
    assert(gather(nodes, Seq::<u32>::empty(), Part::Options) =~= Seq::<Seq<char>>::empty());
    assert(node_args(nodes[i as int], Part::Includes) =~= Seq::<Seq<char>>::empty());
    assert(node_args(nodes[i as int], Part::Options) =~= Seq::<Seq<char>>::empty());
    assert(gather(nodes, Seq::<u32>::empty(), Part::Links) =~= Seq::<Seq<char>>::empty());
    assert(node_args(nodes[i as int], Part::Links) =~= Seq::<Seq<char>>::empty());
    assert(gather(nodes, ids, Part::Includes) =~= Seq::<Seq<char>>::empty());
    assert(gather(nodes, ids, Part::Options) =~= Seq::<Seq<char>>::empty());
    assert(gather(nodes, ids, Part::Links) =~= Seq::<Seq<char>>::empty());
    assert(seq!['b', 'u', 'i', 'l', 'd'] + seq!['/'] + name =~= seq!['b', 'u', 'i', 'l', 'd', '/']
        + name);
    assert(plan_args(nodes, i, defs, edition, seq!['b', 'u', 'i', 'l', 'd'], name) =~= bin_args(
        defs,
        edition,
        name,
        path,
    ));
}

/// Builds the graph of a manifest: one executable per `bin` entry.
pub fn build_graph(cfg: &Config) -> (r: Graph)
    requires
        cfg.bin@.len() < u32::MAX,
    ensures
        r.targets@.len() == cfg.bin@.len(),
        forall|i: int|
            0 <= i < cfg.bin@.len() ==> (#[trigger] r.targets@[i] matches Node::Exe(e) && e.deps@.len()
                == 0 && strings_view(e.sources@) == seq![cfg.bin@[i].path@]),
{
    let mut g = Graph { targets: Vec::new() };
    let mut i: usize = 0;
    while i < cfg.bin.len()
        invariant
            i <= cfg.bin@.len(),
            cfg.bin@.len() < u32::MAX,
            g.targets@.len() == i,
            forall|k: int|
                0 <= k < i ==> (#[trigger] g.targets@[k] matches Node::Exe(e) && e.deps@.len() == 0
                    && strings_view(e.sources@) == seq![cfg.bin@[k].path@]),
        decreases cfg.bin@.len() - i,
    {
        let sources = vec![cfg.bin[i].path.clone()];
        assert(strings_view(sources@) =~= seq![cfg.bin@[i as int].path@]);
        let deps: Vec<u32> = Vec::new();
        assert(deps@.len() == 0);
        g.add(Node::Exe(Exe { deps, sources }));
        i = i + 1;
    }
    g
}

/// The compiler arguments for every `bin` entry of a manifest, in order: each
/// is the plan of its executable node with the package definitions and
/// edition, written to `build/<name>`.
pub fn bin_commands(cfg: &Config) -> (r: Vec<Vec<String>>)
    requires
        cfg.bin@.len() < u32::MAX,
    ensures
        r@.len() == cfg.bin@.len(),
        forall|i: int|
            0 <= i < cfg.bin@.len() ==> strings_view(#[trigger] r@[i]@) == bin_args(
                definitions(cfg.package.name@, cfg.package.version@),
                cfg.package.edition@,
                cfg.bin@[i].name@,
                cfg.bin@[i].path@,
            ),
{
    proof {
        reveal_strlit("build");
    }
    assert("build"@ =~= seq!['b', 'u', 'i', 'l', 'd']);
    let g = build_graph(cfg);
    let defs = get_definitions(cfg);
    proof {
        assert forall|i: int| 0 <= i < g.targets@.len() implies (#[trigger] all_edges(
            g.targets@[i],
        )).len() == 0 by {
            assert(g.targets@[i] matches Node::Exe(_));
        }
        lemma_edgeless_valid(g.targets@);
    }
    let mut r: Vec<Vec<String>> = Vec::new();
    let mut i: usize = 0;
    while i < cfg.bin.len()
        invariant
            i <= cfg.bin@.len(),
            cfg.bin@.len() < u32::MAX,
            g.targets@.len() == cfg.bin@.len(),
            refs_valid(g.targets@),
            !has_cycle(g.targets@),
            pairs_view(defs@) == definitions(cfg.package.name@, cfg.package.version@),
            "build"@ == seq!['b', 'u', 'i', 'l', 'd'],
            forall|k: int|
                0 <= k < cfg.bin@.len() ==> (#[trigger] g.targets@[k] matches Node::Exe(e)
                    && e.deps@.len() == 0 && strings_view(e.sources@) == seq![cfg.bin@[k].path@]),
            r@.len() == i,
            forall|k: int|
                0 <= k < i ==> strings_view(#[trigger] r@[k]@) == bin_args(
                    definitions(cfg.package.name@, cfg.package.version@),
                    cfg.package.edition@,
                    cfg.bin@[k].name@,
                    cfg.bin@[k].path@,
                ),
        decreases cfg.bin@.len() - i,
    {
        let args = plan(
            &g,
            i as u32,
            &defs,
            cfg.package.edition.as_str(),
            "build",
            cfg.bin[i].name.as_str(),
        );
        proof {
            lemma_edgeless_plan(
                g.targets@,
                i as u32,
                pairs_view(defs@),
                cfg.package.edition@,
                cfg.bin@[i as int].name@,
                cfg.bin@[i as int].path@,
            );
        }
        match args {
            Ok(v) => r.push(v),
            Err(_) => {
                assert(false);
            },
        }
        i = i + 1;
    }
    r
}

/// How one compiler run ended.
pub enum Outcome {
    /// The compiler ran and exited, successfully or not.
    Exited(bool),
    /// The compiler could not be started.
    SpawnError,
}

/// What the driver does next.
#[derive(PartialEq, Eq, Structural, Clone, Copy, Debug)]
pub enum Action {
    /// Build the target at this position.
    Build(usize),
    /// Every target was built.
    Done,
    /// The target at this position failed: stop with a non-zero status.
    Fail(usize),
}

/// The first step of a build of `total` targets.
pub fn first_action(total: usize) -> (r: Action)
    ensures
        total == 0 ==> r == Action::Done,
        total > 0 ==> r == Action::Build(0),
{
    if total == 0 {
        Action::Done
    } else {
        Action::Build(0)
    }
}

/// The step after target `current` of `total` ended with `outcome`: go on
/// to the next target after a success, stop after the last, fail on
/// anything else.
pub fn next_action(current: usize, outcome: Outcome, total: usize) -> (r: Action)
    requires
        current < total,
    ensures
        outcome == Outcome::Exited(true) && current + 1 < total ==> r == Action::Build(
            (current + 1) as usize,
        ),
        outcome == Outcome::Exited(true) && current + 1 == total ==> r == Action::Done,
        outcome != Outcome::Exited(true) ==> r == Action::Fail(current),
{
    match outcome {
        Outcome::Exited(true) => if current + 1 < total {
            Action::Build(current + 1)
        } else {
            Action::Done
        },
        _ => Action::Fail(current),
    }
}

} // verus!
