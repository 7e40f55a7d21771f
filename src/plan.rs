use vstd::prelude::*;
use crate::defs::{define_flags, pairs_view, strings_view, append_defs};
use crate::error::Error;
use crate::target::{Graph, Node, Opt, source_closure_of, refs_valid, has_cycle};

verus! {

/// The compiler flag that selects a language standard.
pub open spec fn opt_flag(o: Opt) -> Seq<char> {
    match o {
        Opt::Cpp11 => seq!['-', 's', 't', 'd', '=', 'c', '+', '+', '1', '1'],
        Opt::Cpp14 => seq!['-', 's', 't', 'd', '=', 'c', '+', '+', '1', '4'],
        Opt::Cpp17 => seq!['-', 's', 't', 'd', '=', 'c', '+', '+', '1', '7'],
        Opt::Cpp20 => seq!['-', 's', 't', 'd', '=', 'c', '+', '+', '2', '0'],
        Opt::Cpp23 => seq!['-', 's', 't', 'd', '=', 'c', '+', '+', '2', '3'],
    }
}

pub open spec fn opt_flags(os: Seq<Opt>) -> Seq<Seq<char>> {
    os.map_values(|o: Opt| opt_flag(o))
}

/// The flag that selects the package's edition.
pub open spec fn std_flag(edition: Seq<char>) -> Seq<char> {
    seq!['-', 's', 't', 'd', '='] + edition
}

/// Which part of the command a node's contribution goes to.
pub enum Part {
    /// `-I<path>` for each include directory.
    Includes,
    /// The `-std=` flags of each option group.
    Options,
    /// The path of each prebuilt static or shared library.
    Links,
}

/// What one node adds to one part of the command.
pub open spec fn node_args(n: Node, part: Part) -> Seq<Seq<char>> {
    match (n, part) {
        (Node::Include(p), Part::Includes) => seq![seq!['-', 'I'] + p@],
        (Node::Opts(os), Part::Options) => opt_flags(os@),
        (Node::StaticLib(p), Part::Links) => seq![p@],
        (Node::SharedLib(p), Part::Links) => seq![p@],
        _ => Seq::empty(),
    }
}

/// The contributions of the listed nodes to one part, in list order.
pub open spec fn gather(nodes: Seq<Node>, ids: Seq<u32>, part: Part) -> Seq<Seq<char>>
    decreases ids.len(),
{
    if ids.len() == 0 {
        Seq::empty()
    } else {
        let x = ids.last();
        gather(nodes, ids.drop_last(), part) + if (x as int) < nodes.len() {
            node_args(nodes[x as int], part)
        } else {
            Seq::empty()
        }
    }
}

/// The source files of a target.
pub open spec fn sources_of(n: Node) -> Seq<Seq<char>> {
    match n {
        Node::Library(l) => strings_view(l.sources@),
        Node::Exe(e) => strings_view(e.sources@),
        _ => Seq::empty(),
    }
}

/// The arguments before the package edition flag: definitions, include
/// directories, option groups.
pub open spec fn plan_head(
    nodes: Seq<Node>,
    root: u32,
    defs: Seq<(Seq<char>, Seq<char>)>,
) -> Seq<Seq<char>> {
    let ids = source_closure_of(nodes, root);
    define_flags(defs) + gather(nodes, ids, Part::Includes) + gather(nodes, ids, Part::Options)
}

/// The arguments after the package edition flag: the output, the sources,
/// the prebuilt libraries.
pub open spec fn plan_tail(
    nodes: Seq<Node>,
    root: u32,
    outdir: Seq<char>,
    name: Seq<char>,
) -> Seq<Seq<char>> {
    let ids = source_closure_of(nodes, root);
    seq![seq!['-', 'o'], outdir + seq!['/'] + name] + sources_of(nodes[root as int]) + gather(
        nodes,
        ids,
        Part::Links,
    )
}

/// The full compiler argument vector for target `root`. Each node of the
/// source closure contributes once; equal arguments from distinct nodes are
/// all kept.
pub open spec fn plan_args(
    nodes: Seq<Node>,
    root: u32,
    defs: Seq<(Seq<char>, Seq<char>)>,
    edition: Seq<char>,
    outdir: Seq<char>,
    name: Seq<char>,
) -> Seq<Seq<char>> {
    plan_head(nodes, root, defs) + seq![std_flag(edition)] + plan_tail(nodes, root, outdir, name)
}

fn opt_flag_exec(o: Opt) -> (r: String)
    ensures
        r@ == opt_flag(o),
{
    match o {
        Opt::Cpp11 => {
            proof {
                reveal_strlit("-std=c++11");
            }
            assert("-std=c++11"@ =~= opt_flag(o));
            String::from_str("-std=c++11")
        },
        Opt::Cpp14 => {
            proof {
                reveal_strlit("-std=c++14");
            }
            assert("-std=c++14"@ =~= opt_flag(o));
            String::from_str("-std=c++14")
        },
        Opt::Cpp17 => {
            proof {
                reveal_strlit("-std=c++17");
            }
            assert("-std=c++17"@ =~= opt_flag(o));
            String::from_str("-std=c++17")
        },
        Opt::Cpp20 => {
            proof {
                reveal_strlit("-std=c++20");
            }
            assert("-std=c++20"@ =~= opt_flag(o));
            String::from_str("-std=c++20")
        },
        Opt::Cpp23 => {
            proof {
                reveal_strlit("-std=c++23");
            }
            assert("-std=c++23"@ =~= opt_flag(o));
            String::from_str("-std=c++23")
        },
    }
}

pub(crate) fn push_all(args: &mut Vec<String>, more: Vec<String>)
    ensures
        strings_view(final(args)@) == strings_view(old(args)@) + strings_view(more@),
{
    let mut i: usize = 0;
    while i < more.len()
        invariant
            i <= more@.len(),
            strings_view(args@) == strings_view(old(args)@) + strings_view(more@.take(i as int)),
        decreases more@.len() - i,
    {
        let ghost prev = strings_view(args@);
        args.push(more[i].clone());
        assert(strings_view(args@) =~= prev.push(more@[i as int]@));
        assert(strings_view(more@.take(i + 1)) =~= strings_view(more@.take(i as int)).push(
            more@[i as int]@,
        ));
        i = i + 1;
    }
    assert(more@.take(more@.len() as int) =~= more@);
}

fn node_args_exec(n: &Node, part: &Part) -> (r: Vec<String>)
    ensures
        strings_view(r@) == node_args(*n, *part),
{
    let mut r: Vec<String> = Vec::new();
    match (n, part) {
        (Node::Include(p), Part::Includes) => {
            proof {
                reveal_strlit("-I");
            }
            assert("-I"@ =~= seq!['-', 'I']);
            let mut f = String::from_str("-I");
            f.append(p.as_str());
            r.push(f);
            assert(strings_view(r@) =~= node_args(*n, *part));
        },
        (Node::Opts(os), Part::Options) => {
            let mut i: usize = 0;
            while i < os.len()
                invariant
                    i <= os@.len(),
                    strings_view(r@) == opt_flags(os@.take(i as int)),
                decreases os@.len() - i,
            {
                let ghost prev = strings_view(r@);
                r.push(opt_flag_exec(os[i]));
                assert(strings_view(r@) =~= prev.push(opt_flag(os@[i as int])));
                assert(opt_flags(os@.take(i + 1)) =~= opt_flags(os@.take(i as int)).push(
                    opt_flag(os@[i as int]),
                ));
                i = i + 1;
            }
            assert(os@.take(os@.len() as int) =~= os@);
        },
        (Node::StaticLib(p), Part::Links) => r.push(p.clone()),
        (Node::SharedLib(p), Part::Links) => r.push(p.clone()),
        _ => {},
    }
    assert(strings_view(r@) =~= node_args(*n, *part));
    r
}

fn append_part(args: &mut Vec<String>, g: &Graph, ids: &Vec<u32>, part: Part)
    ensures
        strings_view(final(args)@) == strings_view(old(args)@) + gather(g.targets@, ids@, part),
{
    let mut i: usize = 0;
    while i < ids.len()
        invariant
            i <= ids@.len(),
            strings_view(args@) == strings_view(old(args)@) + gather(
                g.targets@,
                ids@.take(i as int),
                part,
            ),
        decreases ids@.len() - i,
    {
        let x = ids[i];
        assert(ids@.take(i + 1).drop_last() =~= ids@.take(i as int));
        let ghost prev = strings_view(args@);
        if (x as usize) < g.targets.len() {
            let more = node_args_exec(&g.targets[x as usize], &part);
            push_all(args, more);
        }
        assert(strings_view(args@) =~= strings_view(old(args)@) + gather(
            g.targets@,
            ids@.take(i + 1),
            part,
        ));
        i = i + 1;
    }
    assert(ids@.take(ids@.len() as int) =~= ids@);
}

fn sources_exec(n: &Node) -> (r: Vec<String>)
    ensures
        strings_view(r@) == sources_of(*n),
{
    let mut r: Vec<String> = Vec::new();
    match n {
        Node::Library(l) => push_all(&mut r, l.sources.clone()),
        Node::Exe(e) => push_all(&mut r, e.sources.clone()),
        _ => {},
    }
    assert(strings_view(r@) =~= sources_of(*n));
    r
}

/// Plans the compiler invocation for target `root`: the `-D` flags of the
/// definitions, `-I` for each include directory reached, the flags of each
/// option group reached, the package edition flag, `-o <outdir>/<name>`, the
/// target's sources, then each prebuilt library reached. The graph must be
/// valid. Repetition is removed per node: each node reached contributes once,
/// at its first visit, while two distinct nodes that carry the same path or
/// the same standard both contribute.
pub fn plan(
    g: &Graph,
    root: u32,
    defs: &Vec<(String, String)>,
    edition: &str,
    outdir: &str,
    name: &str,
) -> (r: Result<Vec<String>, Error>)
    requires
        g.targets@.len() <= u32::MAX,
    ensures
        (root as int) >= g.targets@.len() ==> (r matches Err(Error::UnknownNode(k)) && k == root),
        (root as int) < g.targets@.len() && !refs_valid(g.targets@) ==> (r matches Err(
            Error::DanglingRef(_),
        )),
        (root as int) < g.targets@.len() && refs_valid(g.targets@) && has_cycle(g.targets@) ==> (
        r matches Err(Error::Cycle(_))),
        (root as int) < g.targets@.len() && refs_valid(g.targets@) && !has_cycle(g.targets@) ==> (
        r matches Ok(v) && strings_view(v@) == plan_args(
            g.targets@,
            root,
            pairs_view(defs@),
            edition@,
            outdir@,
            name@,
        )),
{
    if (root as usize) >= g.targets.len() {
        return Err(Error::UnknownNode(root));
    }
    match g.validate() {
        Err(e) => {
            return Err(e);
        },
        Ok(()) => {},
    }
    proof {
        reveal_strlit("-std=");
        reveal_strlit("-o");
        reveal_strlit("/");
    }
    let ids = g.source_ids(root);
    let mut args: Vec<String> = Vec::new();
    assert(strings_view(args@) =~= Seq::<Seq<char>>::empty());
    append_defs(&mut args, defs);
    append_part(&mut args, g, &ids, Part::Includes);
    append_part(&mut args, g, &ids, Part::Options);
    let ghost head = strings_view(args@);
    assert(head =~= plan_head(g.targets@, root, pairs_view(defs@)));
    let mut std = String::from_str("-std=");
    std.append(edition);
    assert(std@ =~= std_flag(edition@));
    assert("-o"@ =~= seq!['-', 'o']);
    assert("/"@ =~= seq!['/']);
    let mut out = String::from_str(outdir);
    out.append("/");
    out.append(name);
    let ghost fixed = seq![std@, "-o"@, out@];
    args.push(std);
    args.push(String::from_str("-o"));
    args.push(out);
    assert(strings_view(args@) =~= head + fixed);
    let ghost mid = strings_view(args@);
    push_all(&mut args, sources_exec(&g.targets[root as usize]));
    assert(strings_view(args@) =~= mid + sources_of(g.targets@[root as int]));
    append_part(&mut args, g, &ids, Part::Links);
    assert(strings_view(args@) =~= plan_args(
        g.targets@,
        root,
        pairs_view(defs@),
        edition@,
        outdir@,
        name@,
    ));
    Ok(args)
}

/// The package edition flag stands once, at its own position: every flag
/// that an option group contributes comes before it, and what comes after it
/// (the output, the sources, the prebuilt libraries) holds no option group's
/// flag, so on a conflict the package edition wins.
pub proof fn lemma_plan_shape(
    nodes: Seq<Node>,
    root: u32,
    defs: Seq<(Seq<char>, Seq<char>)>,
    edition: Seq<char>,
    outdir: Seq<char>,
    name: Seq<char>,
)
    ensures
        ({
            let a = plan_args(nodes, root, defs, edition, outdir, name);
            let ids = source_closure_of(nodes, root);
            let k = plan_head(nodes, root, defs).len() as int;
            &&& a[k] == std_flag(edition)
            &&& a.take(k) == define_flags(defs) + gather(nodes, ids, Part::Includes) + gather(
                nodes,
                ids,
                Part::Options,
            )
            &&& a.skip(k + 1) == plan_tail(nodes, root, outdir, name)
        }),
{
    let a = plan_args(nodes, root, defs, edition, outdir, name);
    let h = plan_head(nodes, root, defs);
    let k = h.len() as int;
    assert(a.take(k) =~= h);
    assert(a.skip(k + 1) =~= plan_tail(nodes, root, outdir, name));
}

} // verus!
