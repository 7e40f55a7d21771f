use chroma::{plan, Error, Exe, Graph, Kind, Library, Node, Opt};

fn ids(v: &[u32]) -> Vec<u32> {
    v.to_vec()
}

fn strs(v: &[&str]) -> Vec<String> {
    v.iter().map(|s| s.to_string()).collect()
}

const ALL: [Kind; 7] = [
    Kind::Include,
    Kind::Opts,
    Kind::StaticLib,
    Kind::SharedLib,
    Kind::Group,
    Kind::Library,
    Kind::Exe,
];

/// 0 include, 1 opts, 2 static, 3 shared, 4 group{0,1}, 5 private include,
/// 6 library{deps 4, 2; source_deps 5}, 7 exe{deps 6, 3}
fn sample() -> Graph {
    let mut g = Graph { targets: Vec::new() };
    assert_eq!(g.add(Node::Include("inc".to_string())), 0);
    assert_eq!(g.add(Node::Opts(vec![Opt::Cpp14, Opt::Cpp20])), 1);
    assert_eq!(g.add(Node::StaticLib("libz.a".to_string())), 2);
    assert_eq!(g.add(Node::SharedLib("libm.so".to_string())), 3);
    assert_eq!(g.add(Node::Group(ids(&[0, 1]))), 4);
    assert_eq!(g.add(Node::Include("private".to_string())), 5);
    assert_eq!(
        g.add(Node::Library(Library {
            deps: ids(&[4, 2]),
            sources: strs(&["lib.cpp"]),
            source_deps: ids(&[5]),
        })),
        6
    );
    assert_eq!(g.add(Node::Exe(Exe { deps: ids(&[6, 3]), sources: strs(&["main.cpp", "util.cpp"]) })), 7);
    g
}

#[test]
fn closure_is_preorder_first_visit() {
    let g = sample();
    assert_eq!(g.closure(7, &ALL.to_vec()).unwrap(), vec![7, 6, 4, 0, 1, 2, 3]);
}

#[test]
fn closure_is_deterministic() {
    let g = sample();
    let a = g.closure(7, &ALL.to_vec()).unwrap();
    let b = g.closure(7, &ALL.to_vec()).unwrap();
    assert_eq!(a, b);
    assert_eq!(sample().closure(7, &ALL.to_vec()).unwrap(), a);
}

#[test]
fn closure_filter_keeps_traversal() {
    let g = sample();
    assert_eq!(g.closure(7, &vec![Kind::Include]).unwrap(), vec![0]);
    assert_eq!(g.closure(7, &vec![Kind::StaticLib, Kind::SharedLib]).unwrap(), vec![2, 3]);
    assert_eq!(g.closure(7, &vec![Kind::Library]).unwrap(), vec![6]);
    assert!(g.closure(7, &vec![]).unwrap().is_empty());
}

#[test]
fn closure_skips_source_deps() {
    let g = sample();
    let c = g.closure(7, &ALL.to_vec()).unwrap();
    assert!(!c.contains(&5));
}

#[test]
fn source_closure_includes_source_deps() {
    let g = sample();
    assert_eq!(g.source_closure(6, &ALL.to_vec()).unwrap(), vec![6, 4, 0, 1, 2, 5]);
    assert_eq!(g.source_closure(6, &vec![Kind::Include]).unwrap(), vec![0, 5]);
}

#[test]
fn closure_deduplicates_diamond() {
    let mut g = Graph { targets: Vec::new() };
    g.add(Node::Include("shared".to_string()));
    g.add(Node::Group(ids(&[0])));
    g.add(Node::Group(ids(&[0])));
    g.add(Node::Exe(Exe { deps: ids(&[1, 2, 0]), sources: vec![] }));
    assert_eq!(g.closure(3, &ALL.to_vec()).unwrap(), vec![3, 1, 0, 2]);
}

#[test]
fn closure_of_unknown_root() {
    let g = sample();
    assert!(matches!(g.closure(8, &ALL.to_vec()), Err(Error::UnknownNode(8))));
    assert!(matches!(g.source_closure(99, &ALL.to_vec()), Err(Error::UnknownNode(99))));
}

#[test]
fn get_in_and_out_of_range() {
    let g = sample();
    assert!(matches!(g.get(0), Ok(Node::Include(p)) if p == "inc"));
    assert!(matches!(g.get(8), Err(Error::UnknownNode(8))));
}

#[test]
fn validate_accepts_dag() {
    assert!(sample().validate().is_ok());
    assert!(Graph { targets: Vec::new() }.validate().is_ok());
}

#[test]
fn validate_rejects_cycle() {
    let mut g = Graph { targets: Vec::new() };
    g.add(Node::Group(ids(&[1])));
    g.add(Node::Group(ids(&[0])));
    assert!(matches!(g.validate(), Err(Error::Cycle(0))));
}

#[test]
fn validate_rejects_self_loop_through_source_deps() {
    let mut g = Graph { targets: Vec::new() };
    g.add(Node::Include("i".to_string()));
    g.add(Node::Library(Library { deps: ids(&[0]), sources: vec![], source_deps: ids(&[1]) }));
    assert!(matches!(g.validate(), Err(Error::Cycle(1))));
}

#[test]
fn validate_rejects_dangling_ref() {
    let mut g = Graph { targets: Vec::new() };
    g.add(Node::Include("i".to_string()));
    g.add(Node::Exe(Exe { deps: ids(&[0, 5]), sources: vec![] }));
    assert!(matches!(g.validate(), Err(Error::DanglingRef(1))));
}

#[test]
fn closure_terminates_on_cycle() {
    let mut g = Graph { targets: Vec::new() };
    g.add(Node::Group(ids(&[1])));
    g.add(Node::Group(ids(&[0])));
    assert_eq!(g.closure(0, &ALL.to_vec()).unwrap(), vec![0, 1]);
}

fn defs() -> Vec<(String, String)> {
    vec![("P".to_string(), "1".to_string())]
}

#[test]
fn plan_full_command() {
    let g = sample();
    let args = plan(&g, 7, &defs(), "c++17", "build", "app").unwrap();
    assert_eq!(
        args,
        strs(&[
            "-DP=1",
            "-Iinc",
            "-std=c++14",
            "-std=c++20",
            "-std=c++17",
            "-o",
            "build/app",
            "main.cpp",
            "util.cpp",
            "libz.a",
            "libm.so",
        ])
    );
}

#[test]
fn plan_library_uses_source_deps() {
    let g = sample();
    let args = plan(&g, 6, &defs(), "c++23", "out", "mylib").unwrap();
    assert_eq!(
        args,
        strs(&["-DP=1", "-Iinc", "-Iprivate", "-std=c++14", "-std=c++20", "-std=c++23", "-o", "out/mylib", "lib.cpp", "libz.a"])
    );
}

#[test]
fn plan_edition_flag_comes_last_of_std_flags() {
    let mut g = Graph { targets: Vec::new() };
    g.add(Node::Opts(vec![Opt::Cpp11, Opt::Cpp17, Opt::Cpp23]));
    g.add(Node::Exe(Exe { deps: ids(&[0]), sources: strs(&["m.cpp"]) }));
    let args = plan(&g, 1, &vec![], "gnu++2b", "b", "m").unwrap();
    let package_flag = args.iter().position(|a| a == "-std=gnu++2b").unwrap();
    assert_eq!(args.iter().filter(|a| *a == "-std=gnu++2b").count(), 1);
    let last_opt = args.iter().rposition(|a| a == "-std=c++23").unwrap();
    assert!(last_opt < package_flag);
    assert_eq!(args, strs(&["-std=c++11", "-std=c++17", "-std=c++23", "-std=gnu++2b", "-o", "b/m", "m.cpp"]));
}

#[test]
fn plan_keeps_same_path_of_both_link_kinds() {
    let mut g = Graph { targets: Vec::new() };
    g.add(Node::SharedLib("libq".to_string()));
    g.add(Node::StaticLib("libq".to_string()));
    g.add(Node::Exe(Exe { deps: ids(&[0, 1]), sources: strs(&["m.cpp"]) }));
    let args = plan(&g, 2, &vec![], "c++17", "b", "m").unwrap();
    assert_eq!(args, strs(&["-std=c++17", "-o", "b/m", "m.cpp", "libq", "libq"]));
}

#[test]
fn plan_errors() {
    let g = sample();
    assert!(matches!(plan(&g, 42, &defs(), "c++17", "b", "x"), Err(Error::UnknownNode(42))));
    let mut cyc = Graph { targets: Vec::new() };
    cyc.add(Node::Group(ids(&[1])));
    cyc.add(Node::Group(ids(&[0])));
    cyc.add(Node::Exe(Exe { deps: ids(&[0]), sources: vec![] }));
    assert!(matches!(plan(&cyc, 2, &defs(), "c++17", "b", "x"), Err(Error::Cycle(_))));
    let mut dang = Graph { targets: Vec::new() };
    dang.add(Node::Exe(Exe { deps: ids(&[3]), sources: vec![] }));
    assert!(matches!(plan(&dang, 0, &defs(), "c++17", "b", "x"), Err(Error::DanglingRef(0))));
}

#[test]
fn plan_with_no_dependencies() {
    let mut g = Graph { targets: Vec::new() };
    g.add(Node::Exe(Exe { deps: vec![], sources: strs(&["a.cpp"]) }));
    assert_eq!(plan(&g, 0, &defs(), "c++17", "build", "a").unwrap(), strs(&["-DP=1", "-std=c++17", "-o", "build/a", "a.cpp"]));
}
