use vstd::prelude::*;
use crate::names::{canonical, normalize, quoted};

verus! {

/// Identity of the package being built.
pub struct Package {
    pub name: String,
    pub version: String,
    pub edition: String,
}

/// An executable declared by the manifest: its output name and main source.
pub struct Bin {
    pub name: String,
    pub path: String,
}

/// The typed content of a project manifest.
pub struct Config {
    pub package: Package,
    pub bin: Vec<Bin>,
}

/// The pieces of a dotted version, split at every `.`: a version with `d`
/// dots has `d + 1` pieces, some possibly empty.
pub open spec fn segments(v: Seq<char>) -> Seq<Seq<char>>
    decreases v.len(),
{
    if v.len() == 0 {
        seq![Seq::<char>::empty()]
    } else {
        let prev = segments(v.drop_last());
        if v.last() == '.' {
            prev.push(Seq::<char>::empty())
        } else {
            prev.update(prev.len() - 1, prev.last().push(v.last()))
        }
    }
}

/// The dot-separated segments of a version: none for an empty version.
pub open spec fn version_segments(v: Seq<char>) -> Seq<Seq<char>> {
    if v.len() == 0 {
        Seq::empty()
    } else {
        segments(v)
    }
}

pub open spec fn suffix_version() -> Seq<char> {
    seq!['_', 'V', 'E', 'R', 'S', 'I', 'O', 'N']
}

/// The suffix of the macro that carries the `i`-th version segment.
pub open spec fn suffix_segment(i: int) -> Seq<char> {
    if i == 0 {
        seq!['_', 'M', 'A', 'J', 'O', 'R']
    } else if i == 1 {
        seq!['_', 'M', 'I', 'N', 'O', 'R']
    } else {
        seq!['_', 'P', 'A', 'T', 'C', 'H']
    }
}

pub open spec fn min3(k: int) -> int {
    if k < 3 {
        k
    } else {
        3
    }
}

/// The macro definitions derived from a package name and version: a presence
/// flag, the quoted version, then one entry for each of the first three
/// version segments.
pub open spec fn definitions(name: Seq<char>, version: Seq<char>) -> Seq<(Seq<char>, Seq<char>)> {
    let m = canonical(name);
    let segs = version_segments(version);
    seq![(m, seq!['1']), (m + suffix_version(), quoted(version))] + Seq::new(
        min3(segs.len() as int) as nat,
        |i: int| (m + suffix_segment(i), segs[i]),
    )
}

pub open spec fn pair_view(p: (String, String)) -> (Seq<char>, Seq<char>) {
    (p.0@, p.1@)
}

pub open spec fn pairs_view(v: Seq<(String, String)>) -> Seq<(Seq<char>, Seq<char>)> {
    v.map_values(|p: (String, String)| pair_view(p))
}

pub open spec fn strings_view(v: Seq<String>) -> Seq<Seq<char>> {
    v.map_values(|s: String| s@)
}

/// Splits a version on `.` into all of its segments; an empty version has
/// none.
fn split_version(v: &str) -> (r: Vec<String>)
    ensures
        strings_view(r@) == version_segments(v@),
{
    let n = v.unicode_len();
    if n == 0 {
        let none: Vec<String> = Vec::new();
        assert(strings_view(none@) =~= version_segments(v@));
        return none;
    }
    let mut done: Vec<String> = Vec::new();
    let mut cur = String::new();
    let mut i: usize = 0;
    while i < n
        invariant
            n == v@.len(),
            i <= n,
            strings_view(done@).push(cur@) == segments(v@.take(i as int)),
        decreases n - i,
    {
        let c = v.get_char(i);
        let ghost before = v@.take(i as int);
        assert(v@.take(i + 1).drop_last() == before);
        if c == '.' {
            let finished = cur;
            done.push(finished);
            cur = String::new();
            assert(strings_view(done@).push(cur@) =~= segments(v@.take(i + 1)));
        } else {
            crate::names::push_char(&mut cur, c);
            assert(strings_view(done@).push(cur@) =~= segments(v@.take(i + 1)));
        }
        i = i + 1;
    }
    assert(v@.take(n as int) == v@);
    done.push(cur);
    assert(strings_view(done@) =~= segments(v@));
    done
}

/// The name followed by a suffix.
fn tag(name: &String, suffix: &str) -> (r: String)
    ensures
        r@ == name@ + suffix@,
{
    let mut r = name.clone();
    r.append(suffix);
    r
}

/// Derives the package-wide macro definitions, in emission order.
pub fn get_definitions(cfg: &Config) -> (r: Vec<(String, String)>)
    ensures
        pairs_view(r@) == definitions(cfg.package.name@, cfg.package.version@),
{
    proof {
        reveal_strlit("1");
        reveal_strlit("_VERSION");
    }
    let name = normalize(cfg.package.name.as_str());
    let ghost m = canonical(cfg.package.name@);
    let ghost segs = version_segments(cfg.package.version@);
    let mut defs: Vec<(String, String)> = Vec::new();
    assert("1"@ =~= seq!['1']);
    assert("_VERSION"@ =~= suffix_version());
    defs.push((name.clone(), String::from_str("1")));
    defs.push((tag(&name, "_VERSION"), crate::names::quote(cfg.package.version.as_str())));
    let parts = split_version(cfg.package.version.as_str());
    let k: usize = if parts.len() < 3 { parts.len() } else { 3 };
    assert(pairs_view(defs@) =~= definitions(cfg.package.name@, cfg.package.version@).take(2));
    let mut i: usize = 0;
    while i < k
        invariant
            name@ == m,
            m == canonical(cfg.package.name@),
            segs == version_segments(cfg.package.version@),
            strings_view(parts@) == segs,
            k == min3(segs.len() as int),
            i <= k,
            pairs_view(defs@) == definitions(cfg.package.name@, cfg.package.version@).take(2 + i),
        decreases k - i,
    {
        let suffix: &str = if i == 0 {
            proof {
                reveal_strlit("_MAJOR");
            }
            "_MAJOR"
        } else if i == 1 {
            proof {
                reveal_strlit("_MINOR");
            }
            "_MINOR"
        } else {
            proof {
                reveal_strlit("_PATCH");
            }
            "_PATCH"
        };
        assert(suffix@ =~= suffix_segment(i as int));
        let seg = parts[i].clone();
        assert(seg@ == segs[i as int]);
        let ghost d = definitions(cfg.package.name@, cfg.package.version@);
        assert(d.len() == 2 + k);
        assert(d[2 + i] == Seq::new(
            min3(segs.len() as int) as nat,
            |j: int| (m + suffix_segment(j), segs[j]),
        )[i as int]);
        assert(d[2 + i] == (m + suffix_segment(i as int), segs[i as int]));
        let entry = (tag(&name, suffix), seg);
        let ghost prev = pairs_view(defs@);
        assert(pair_view(entry) == d[2 + i]);
        defs.push(entry);
        assert(pairs_view(defs@) =~= prev.push(d[2 + i]));
        assert(d.take(2 + i + 1) =~= d.take(2 + i).push(d[2 + i]));
        i = i + 1;
        assert(pairs_view(defs@) =~= definitions(cfg.package.name@, cfg.package.version@).take(
            2 + i,
        ));
    }
    assert(definitions(cfg.package.name@, cfg.package.version@).len() == 2 + k);
    assert(pairs_view(defs@) =~= definitions(cfg.package.name@, cfg.package.version@));
    defs
}

/// The compiler flag for one definition: `-D<ident>=<body>`.
pub open spec fn define_flag(p: (Seq<char>, Seq<char>)) -> Seq<char> {
    seq!['-', 'D'] + p.0 + seq!['='] + p.1
}

pub open spec fn define_flags(ps: Seq<(Seq<char>, Seq<char>)>) -> Seq<Seq<char>> {
    ps.map_values(|p: (Seq<char>, Seq<char>)| define_flag(p))
}

/// Appends one `-D<ident>=<body>` flag for each definition, in order.
pub fn append_defs(args: &mut Vec<String>, defs: &Vec<(String, String)>)
    ensures
        strings_view(final(args)@) == strings_view(old(args)@) + define_flags(pairs_view(defs@)),
{
    let ghost start = strings_view(args@);
    let mut i: usize = 0;
    while i < defs.len()
        invariant
            i <= defs@.len(),
            strings_view(args@) == start + define_flags(pairs_view(defs@).take(i as int)),
        decreases defs@.len() - i,
    {
        proof {
            reveal_strlit("-D");
            reveal_strlit("=");
        }
        let mut flag = String::from_str("-D");
        flag.append(defs[i].0.as_str());
        flag.append("=");
        flag.append(defs[i].1.as_str());
        assert(flag@ =~= define_flag(pair_view(defs@[i as int])));
        let ghost prev = strings_view(args@);
        let ghost x = pairs_view(defs@);
        args.push(flag);
        assert(strings_view(args@) =~= prev.push(flag@));
        assert(x.take(i + 1) =~= x.take(i as int).push(x[i as int]));
        assert(define_flags(x.take(i + 1)) =~= define_flags(x.take(i as int)).push(
            define_flag(x[i as int]),
        ));
        i = i + 1;
        assert(strings_view(args@) =~= start + define_flags(pairs_view(defs@).take(i as int)));
    }
    assert(pairs_view(defs@).take(defs@.len() as int) =~= pairs_view(defs@));
}

/// There are two definitions, plus one for each of the first three version
/// segments.
pub proof fn lemma_definition_count(name: Seq<char>, version: Seq<char>)
    ensures
        definitions(name, version).len() == 2 + min3(version_segments(version).len() as int),
{
}

/// The definitions come in the order: the name, its `_VERSION`, then
/// `_MAJOR`, `_MINOR` and `_PATCH` as far as the version has segments.
pub proof fn lemma_definition_order(name: Seq<char>, version: Seq<char>)
    ensures
        definitions(name, version)[0] == (canonical(name), seq!['1']),
        definitions(name, version)[1] == (canonical(name) + suffix_version(), quoted(version)),
        forall|i: int|
            2 <= i < definitions(name, version).len() ==> #[trigger] definitions(name, version)[i]
                == (canonical(name) + suffix_segment(i - 2), version_segments(version)[i - 2]),
{
}

/// Whether a compiler argument selects a language standard.
pub open spec fn is_std_token(t: Seq<char>) -> bool {
    t.len() >= 5 && t.take(5) == seq!['-', 's', 't', 'd', '=']
}

/// Definition flags never select a language standard, so appending them
/// leaves which `-std=` token comes last unchanged.
pub proof fn lemma_define_flags_not_std(defs: Seq<(Seq<char>, Seq<char>)>)
    ensures
        forall|j: int| 0 <= j < defs.len() ==> !is_std_token(#[trigger] define_flags(defs)[j]),
{
    assert forall|j: int| 0 <= j < defs.len() implies !is_std_token(
        #[trigger] define_flags(defs)[j],
    ) by {
        let t = define_flags(defs)[j];
        assert(t[1] == 'D');
        if t.len() >= 5 {
            assert(t.take(5)[1] == 'D');
        }
    }
}

} // verus!
