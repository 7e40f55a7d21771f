use chroma::{append_defs, bin_commands, get_definitions, normalize, quote, to_macro_name};
use chroma::{Bin, Config, Package};

fn config(name: &str, version: &str, edition: &str, bins: &[(&str, &str)]) -> Config {
    Config {
        package: Package {
            name: name.to_string(),
            version: version.to_string(),
            edition: edition.to_string(),
        },
        bin: bins
            .iter()
            .map(|(n, p)| Bin { name: n.to_string(), path: p.to_string() })
            .collect(),
    }
}

fn pairs(v: &[(&str, &str)]) -> Vec<(String, String)> {
    v.iter().map(|(a, b)| (a.to_string(), b.to_string())).collect()
}

#[test]
fn minimal_project_definitions() {
    let cfg = config("demo", "0.1.0", "c++17", &[("demo", "src/main.cpp")]);
    assert_eq!(
        get_definitions(&cfg),
        pairs(&[
            ("DEMO", "1"),
            ("DEMO_VERSION", "\"0.1.0\""),
            ("DEMO_MAJOR", "0"),
            ("DEMO_MINOR", "1"),
            ("DEMO_PATCH", "0"),
        ])
    );
}

#[test]
fn minimal_project_command() {
    let cfg = config("demo", "0.1.0", "c++17", &[("demo", "src/main.cpp")]);
    let cmds = bin_commands(&cfg);
    assert_eq!(cmds.len(), 1);
    assert_eq!(
        cmds[0],
        vec![
            "-DDEMO=1",
            "-DDEMO_VERSION=\"0.1.0\"",
            "-DDEMO_MAJOR=0",
            "-DDEMO_MINOR=1",
            "-DDEMO_PATCH=0",
            "-std=c++17",
            "-o",
            "build/demo",
            "src/main.cpp",
        ]
    );
}

#[test]
fn two_binaries_in_order() {
    let cfg = config("x", "3", "c++20", &[("a", "a.cpp"), ("b", "src/b.cpp")]);
    let cmds = bin_commands(&cfg);
    assert_eq!(cmds.len(), 2);
    assert_eq!(cmds[0], vec!["-DX=1", "-DX_VERSION=\"3\"", "-DX_MAJOR=3", "-std=c++20", "-o", "build/a", "a.cpp"]);
    assert_eq!(cmds[1], vec!["-DX=1", "-DX_VERSION=\"3\"", "-DX_MAJOR=3", "-std=c++20", "-o", "build/b", "src/b.cpp"]);
}

#[test]
fn no_binaries_no_commands() {
    let cfg = config("x", "1", "c++11", &[]);
    assert!(bin_commands(&cfg).is_empty());
}

#[test]
fn hyphenated_name() {
    let cfg = config("my-lib", "1.0.0", "c++17", &[]);
    let defs = get_definitions(&cfg);
    assert_eq!(defs[0], ("MY_LIB".to_string(), "1".to_string()));
    assert_eq!(defs[1].0, "MY_LIB_VERSION");
}

#[test]
fn short_version() {
    let cfg = config("n", "2", "c++17", &[]);
    assert_eq!(get_definitions(&cfg), pairs(&[("N", "1"), ("N_VERSION", "\"2\""), ("N_MAJOR", "2")]));
}

#[test]
fn two_segment_version() {
    let cfg = config("n", "4.5", "c++17", &[]);
    assert_eq!(
        get_definitions(&cfg),
        pairs(&[("N", "1"), ("N_VERSION", "\"4.5\""), ("N_MAJOR", "4"), ("N_MINOR", "5")])
    );
}

#[test]
fn over_long_version() {
    let cfg = config("n", "1.2.3.4.5", "c++17", &[]);
    assert_eq!(
        get_definitions(&cfg),
        pairs(&[
            ("N", "1"),
            ("N_VERSION", "\"1.2.3.4.5\""),
            ("N_MAJOR", "1"),
            ("N_MINOR", "2"),
            ("N_PATCH", "3"),
        ])
    );
}

#[test]
fn empty_version_has_no_segments() {
    let cfg = config("n", "", "c++17", &[]);
    assert_eq!(get_definitions(&cfg), pairs(&[("N", "1"), ("N_VERSION", "\"\"")]));
}

#[test]
fn segments_are_passed_verbatim() {
    let cfg = config("n", "1..rc-2", "c++17", &[]);
    assert_eq!(
        get_definitions(&cfg),
        pairs(&[("N", "1"), ("N_VERSION", "\"1..rc-2\""), ("N_MAJOR", "1"), ("N_MINOR", ""), ("N_PATCH", "rc-2")])
    );
}

#[test]
fn definition_count_follows_segments() {
    for (v, n) in [("", 2), ("1", 3), ("1.2", 4), ("1.2.3", 5), ("1.2.3.4", 5)] {
        let cfg = config("p", v, "c++17", &[]);
        assert_eq!(get_definitions(&cfg).len(), n);
    }
}

#[test]
fn macro_name_upper_cases_and_replaces_hyphens() {
    assert_eq!(to_macro_name("my-cool_lib9"), "MY_COOL_LIB9");
    assert_eq!(to_macro_name(""), "");
    assert_eq!(to_macro_name("é-x"), "é_X");
    assert_eq!(normalize("a-b"), "A_B");
}

#[test]
fn macro_name_is_idempotent() {
    for s in ["demo", "my-lib", "MiXeD-case_1", "--", "ß-q"] {
        let once = to_macro_name(s);
        assert_eq!(to_macro_name(&once), once);
    }
}

#[test]
fn quote_wraps_without_escaping() {
    assert_eq!(quote("0.1.0"), "\"0.1.0\"");
    assert_eq!(quote(""), "\"\"");
    assert_eq!(quote("a\"b"), "\"a\"b\"");
}

#[test]
fn append_defs_renders_flags() {
    let mut args = vec!["g++".to_string()];
    append_defs(&mut args, &pairs(&[("A", "1"), ("B_VERSION", "\"2\"")]));
    assert_eq!(args, vec!["g++", "-DA=1", "-DB_VERSION=\"2\""]);
}
