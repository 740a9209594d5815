use package_manager::{
    answer_declines, descriptor_path, install_set, join, locator_address, Action, Event,
    InstallError, Installer, JSONPackage, Stage,
};

fn described(name: &str) -> JSONPackage {
    JSONPackage {
        name: name.to_string(),
        version: "2.1".to_string(),
        patches: false,
        filename: format!("{}.tar", name),
        url: format!("http://host/{}.tar", name),
        depends: vec![],
    }
}

fn installer(names: &[&str]) -> Installer {
    Installer::new(
        names.iter().map(|n| n.to_string()).collect(),
        "/mirror".to_string(),
        "/stage".to_string(),
    )
}

#[test]
fn install_set_appends_root() {
    let set = install_set(vec!["b".to_string(), "c".to_string()], "a");
    assert_eq!(set, vec!["b", "c", "a"]);
    let alone = install_set(vec![], "a");
    assert_eq!(alone, vec!["a"]);
}

#[test]
fn declining_replies() {
    assert!(answer_declines("n"));
    assert!(answer_declines("N"));
    assert!(answer_declines("n\n"));
    assert!(answer_declines("N\r\n"));
}

#[test]
fn accepting_replies() {
    assert!(!answer_declines("no"));
    assert!(!answer_declines("y"));
    assert!(!answer_declines(""));
    assert!(!answer_declines("\n"));
    assert!(!answer_declines(" n\n"));
    assert!(!answer_declines("n \n"));
    assert!(!answer_declines("nn"));
}

#[test]
fn paths() {
    assert_eq!(join("/var/lib/tux", "vim"), "/var/lib/tux/vim");
    assert_eq!(
        descriptor_path("/var/lib/tux/repository", "vim"),
        "/var/lib/tux/repository/vim/package.json"
    );
}

#[test]
fn locator_loses_one_newline() {
    assert_eq!(locator_address("https://host/repo.git\n"), "https://host/repo.git");
    assert_eq!(locator_address("https://host/repo.git"), "https://host/repo.git");
    assert_eq!(locator_address("x\n\n"), "x\n");
    assert_eq!(locator_address(""), "");
}

#[test]
fn decline_stops_before_any_work() {
    let mut i = installer(&["b", "a"]);
    let a = i.advance(Event::Answer("n\n".to_string()));
    assert!(matches!(a, Action::Abort(InstallError::Declined)));
    assert_eq!(i.stage, Stage::Finished);
    let again = i.advance(Event::DirReady);
    assert!(matches!(again, Action::Abort(InstallError::Sequence)));
}

#[test]
fn full_run_stages_each_package() {
    let mut i = installer(&["b", "a"]);
    match i.advance(Event::Answer("y\n".to_string())) {
        Action::CreateDir(d) => assert_eq!(d, "/stage/b"),
        other => panic!("unexpected {:?}", other),
    }
    match i.advance(Event::DirReady) {
        Action::ReadDescriptor(p) => assert_eq!(p, "/mirror/b/package.json"),
        other => panic!("unexpected {:?}", other),
    }
    match i.advance(Event::Described(described("b"))) {
        Action::Download { name, version, url } => {
            assert_eq!(name, "b");
            assert_eq!(version, "2.1");
            assert_eq!(url, "http://host/b.tar");
        }
        other => panic!("unexpected {:?}", other),
    }
    match i.advance(Event::Fetched("body of b".to_string())) {
        Action::Store { path, body } => {
            assert_eq!(path, "/stage/b/b.tar");
            assert_eq!(body, "body of b");
        }
        other => panic!("unexpected {:?}", other),
    }
    match i.advance(Event::Stored) {
        Action::CreateDir(d) => assert_eq!(d, "/stage/a"),
        other => panic!("unexpected {:?}", other),
    }
    assert!(matches!(i.advance(Event::DirReady), Action::ReadDescriptor(_)));
    assert!(matches!(i.advance(Event::Described(described("a"))), Action::Download { .. }));
    assert!(matches!(i.advance(Event::Fetched(String::new())), Action::Store { .. }));
    assert!(matches!(i.advance(Event::Stored), Action::Complete));
    assert_eq!(i.stage, Stage::Finished);
}

#[test]
fn failed_download_abandons_only_current() {
    let mut i = installer(&["b", "a"]);
    i.advance(Event::Answer("\n".to_string()));
    i.advance(Event::DirReady);
    i.advance(Event::Described(described("b")));
    i.advance(Event::Fetched("x".to_string()));
    i.advance(Event::Stored);
    i.advance(Event::DirReady);
    i.advance(Event::Described(described("a")));
    match i.advance(Event::FetchFailed) {
        Action::Abandon { dir, error } => {
            assert_eq!(dir, "/stage/a");
            assert_eq!(error, InstallError::Download);
        }
        other => panic!("unexpected {:?}", other),
    }
    assert_eq!(i.stage, Stage::Finished);
}

#[test]
fn failures_at_each_step() {
    let mut i = installer(&["a"]);
    i.advance(Event::Answer("y".to_string()));
    assert!(matches!(i.advance(Event::DirFailed), Action::Abort(InstallError::CreateDir)));

    let mut i = installer(&["a"]);
    i.advance(Event::Answer("y".to_string()));
    i.advance(Event::DirReady);
    match i.advance(Event::DescribeFailed) {
        Action::Abandon { dir, error } => {
            assert_eq!(dir, "/stage/a");
            assert_eq!(error, InstallError::Descriptor);
        }
        other => panic!("unexpected {:?}", other),
    }

    let mut i = installer(&["a"]);
    i.advance(Event::Answer("y".to_string()));
    i.advance(Event::DirReady);
    i.advance(Event::Described(described("a")));
    i.advance(Event::Fetched("x".to_string()));
    match i.advance(Event::StoreFailed) {
        Action::Abandon { dir, error } => {
            assert_eq!(dir, "/stage/a");
            assert_eq!(error, InstallError::Write);
        }
        other => panic!("unexpected {:?}", other),
    }
}

#[test]
fn out_of_order_event_stops() {
    let mut i = installer(&["a"]);
    assert!(matches!(i.advance(Event::Stored), Action::Abort(InstallError::Sequence)));
    assert_eq!(i.stage, Stage::Finished);
}

#[test]
fn empty_set_completes() {
    let mut i = installer(&[]);
    assert!(matches!(i.advance(Event::Answer("y".to_string())), Action::Complete));
}
