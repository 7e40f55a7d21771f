use chroma::{find_project_root_from, first_action, next_action, relative_path, report_err};
use chroma::{Action, Error, ManifestFile, Outcome, Probe};

fn comps(p: &str) -> Vec<String> {
    p.split('/').filter(|s| !s.is_empty()).map(|s| s.to_string()).collect()
}

#[test]
fn relative_path_down() {
    assert_eq!(relative_path(&comps("/a/b"), &comps("/a/b/c/d")), vec!["c", "d"]);
}

#[test]
fn relative_path_up() {
    assert_eq!(relative_path(&comps("/a/b/c"), &comps("/a")), vec!["..", ".."]);
}

#[test]
fn relative_path_across() {
    assert_eq!(relative_path(&comps("/a/x/y"), &comps("/a/b")), vec!["..", "..", "b"]);
}

#[test]
fn relative_path_same() {
    assert!(relative_path(&comps("/a/b"), &comps("/a/b")).is_empty());
}

fn probe(dir: &str, lower: bool, upper: bool) -> Probe {
    Probe { dir: comps(dir), has_lower: lower, has_upper: upper }
}

#[test]
fn root_is_nearest_manifest() {
    let probes = vec![probe("/p/a/b", false, false), probe("/p/a", false, true), probe("/p", true, false)];
    let root = find_project_root_from(&probes, &comps("/p/a/b")).unwrap();
    assert_eq!(root.project_root, comps("/p/a"));
    assert_eq!(root.current_dir, vec!["b"]);
    assert_eq!(root.file, ManifestFile::Upper);
    assert_eq!(root.file.file_name(), "Chroma.toml");
}

#[test]
fn root_prefers_lowercase_manifest() {
    let probes = vec![probe("/p", true, true)];
    let root = find_project_root_from(&probes, &comps("/p")).unwrap();
    assert_eq!(root.file, ManifestFile::Lower);
    assert_eq!(root.file.file_name(), "chroma.toml");
    assert!(root.current_dir.is_empty());
}

#[test]
fn missing_manifest() {
    let probes = vec![probe("/p/a", false, false), probe("/p", false, false), probe("/", false, false)];
    assert!(matches!(find_project_root_from(&probes, &comps("/p/a")), Err(Error::Str(_))));
    assert!(matches!(find_project_root_from(&vec![], &comps("/")), Err(Error::Str(_))));
}

#[test]
fn report_err_carries_message() {
    let r: Result<u8, Error> = report_err("boom");
    assert!(matches!(r, Err(Error::Str("boom"))));
}

#[test]
fn build_stops_at_first_failure() {
    assert_eq!(first_action(2), Action::Build(0));
    assert_eq!(first_action(0), Action::Done);
    assert_eq!(next_action(0, Outcome::Exited(false), 2), Action::Fail(0));
    assert_eq!(next_action(0, Outcome::SpawnError, 2), Action::Fail(0));
    assert_eq!(next_action(0, Outcome::Exited(true), 2), Action::Build(1));
    assert_eq!(next_action(1, Outcome::Exited(true), 2), Action::Done);
}

#[test]
fn missing_manifest_message() {
    let probes = vec![probe("/p", false, false)];
    match find_project_root_from(&probes, &comps("/p")) {
        Err(e) => assert_eq!(
            e.message(),
            "Unable to find either 'chroma.toml' or 'Chroma.toml' in current directory, or it's parents."
        ),
        Ok(_) => panic!("expected an error"),
    }
}

#[test]
fn error_messages() {
    assert_eq!(Error::Str("boom").message(), "boom");
    assert_eq!(Error::InternalErr("io failed".to_string()).message(), "io failed");
    assert_eq!(Error::UnknownNode(0).message(), "unknown node 0");
    assert_eq!(Error::DanglingRef(42).message(), "dangling reference in node 42");
    assert_eq!(Error::Cycle(4294967295).message(), "cycle through node 4294967295");
}
