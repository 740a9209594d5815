use package_manager::{
    tux_resolve_dependencies, Descriptor, Failure, JSONPackage, Repository,
};

fn pkg(name: &str, depends: &[&str]) -> JSONPackage {
    JSONPackage {
        name: name.to_string(),
        version: "1.0".to_string(),
        patches: false,
        filename: format!("{}.tar.gz", name),
        url: format!("https://example.org/{}.tar.gz", name),
        depends: depends.iter().map(|d| d.to_string()).collect(),
    }
}

fn repo(index: &str, packages: Vec<JSONPackage>) -> Repository {
    let mut r = Repository::new(index.to_string());
    for p in packages {
        let name = p.name.clone();
        r.record(name, Descriptor::Read(p));
    }
    r
}

#[test]
fn preorder_depth_first() {
    let r = repo(
        "a\nb\nc\nd\n",
        vec![pkg("a", &["b", "c"]), pkg("b", &["d"]), pkg("c", &[]), pkg("d", &[])],
    );
    let deps = tux_resolve_dependencies(&r, "a").unwrap();
    assert_eq!(deps, vec!["b", "d", "c"]);
}

#[test]
fn no_dependencies_resolves_empty() {
    let r = repo("a\n", vec![pkg("a", &[])]);
    let deps = tux_resolve_dependencies(&r, "a").unwrap();
    assert!(deps.is_empty());
}

#[test]
fn unlisted_package_is_not_found() {
    let r = repo("a\n", vec![pkg("a", &[]), pkg("z", &[])]);
    let err = tux_resolve_dependencies(&r, "z").unwrap_err();
    assert_eq!(err.failure, Failure::NotFound);
    assert_eq!(err.package, "z");
}

#[test]
fn missing_dependency_is_not_found() {
    let r = repo("a\n", vec![pkg("a", &["ghost"])]);
    let err = tux_resolve_dependencies(&r, "a").unwrap_err();
    assert_eq!(err.failure, Failure::NotFound);
    assert_eq!(err.package, "ghost");
}

#[test]
fn shared_dependency_appears_twice() {
    let r = repo(
        "root\nb\nc\nx\n",
        vec![pkg("root", &["b", "c"]), pkg("b", &["x"]), pkg("c", &["x"]), pkg("x", &[])],
    );
    let deps = tux_resolve_dependencies(&r, "root").unwrap();
    assert_eq!(deps, vec!["b", "x", "c", "x"]);
}

#[test]
fn two_package_cycle_is_detected() {
    let r = repo("a\nb\n", vec![pkg("a", &["b"]), pkg("b", &["a"])]);
    let err = tux_resolve_dependencies(&r, "a").unwrap_err();
    assert_eq!(err.failure, Failure::Cycle);
    assert_eq!(err.package, "a");
}

#[test]
fn self_dependency_is_detected() {
    let r = repo("a\n", vec![pkg("a", &["a"])]);
    let err = tux_resolve_dependencies(&r, "a").unwrap_err();
    assert_eq!(err.failure, Failure::Cycle);
    assert_eq!(err.package, "a");
}

#[test]
fn diamond_is_not_a_cycle() {
    let r = repo(
        "a\nb\nc\nd\n",
        vec![pkg("a", &["b", "c"]), pkg("b", &["d"]), pkg("c", &["d"]), pkg("d", &[])],
    );
    let deps = tux_resolve_dependencies(&r, "a").unwrap();
    assert_eq!(deps, vec!["b", "d", "c", "d"]);
}

#[test]
fn missing_descriptor_is_stale() {
    let mut r = repo("a\nb\n", vec![pkg("a", &["b"])]);
    r.record("b".to_string(), Descriptor::Missing);
    let err = tux_resolve_dependencies(&r, "a").unwrap_err();
    assert_eq!(err.failure, Failure::Stale);
    assert_eq!(err.package, "b");
}

#[test]
fn unreadable_descriptor_fails() {
    let mut r = repo("a\nb\n", vec![pkg("a", &["b"])]);
    r.record("b".to_string(), Descriptor::Unreadable);
    let err = tux_resolve_dependencies(&r, "a").unwrap_err();
    assert_eq!(err.failure, Failure::Unreadable);
    assert_eq!(err.package, "b");
}

#[test]
fn unread_descriptor_is_asked_for() {
    let r = repo("a\nb\n", vec![pkg("a", &["b"])]);
    let err = tux_resolve_dependencies(&r, "a").unwrap_err();
    assert_eq!(err.failure, Failure::Unloaded);
    assert_eq!(err.package, "b");
}

#[test]
fn first_failure_in_order_wins() {
    let r = repo("a\nb\n", vec![pkg("a", &["b", "nope"]), pkg("b", &["gone"])]);
    let err = tux_resolve_dependencies(&r, "a").unwrap_err();
    assert_eq!(err.failure, Failure::NotFound);
    assert_eq!(err.package, "gone");
}

#[test]
fn first_recorded_descriptor_counts() {
    let mut r = repo("a\nb\n", vec![pkg("a", &["b"]), pkg("b", &[])]);
    r.record("b".to_string(), Descriptor::Missing);
    let deps = tux_resolve_dependencies(&r, "a").unwrap();
    assert_eq!(deps, vec!["b"]);
}
