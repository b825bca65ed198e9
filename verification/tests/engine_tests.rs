use findr::config::{build, Config, EntryType};
use findr::engine::{run, Action, EntryEvent, RootWalk};

fn strings(xs: &[&str]) -> Vec<String> {
    xs.iter().map(|x| x.to_string()).collect()
}

fn resolved(kind: EntryType, base_name: &str, path: &str) -> EntryEvent {
    EntryEvent::Resolved {
        kind,
        base_name: base_name.to_string(),
        path: path.to_string(),
    }
}

/// The walk of the tree `root/{a.txt, b.csv, sub/c.txt}`, in traversal
/// order, with the root itself first.
fn sample_tree() -> RootWalk {
    RootWalk {
        root: "root".to_string(),
        events: vec![
            resolved(EntryType::Dir, "root", "root"),
            resolved(EntryType::File, "a.txt", "root/a.txt"),
            resolved(EntryType::File, "b.csv", "root/b.csv"),
            resolved(EntryType::Dir, "sub", "root/sub"),
            resolved(EntryType::File, "c.txt", "root/sub/c.txt"),
        ],
    }
}

fn no_filters() -> Config {
    build(strings(&["root"]), Vec::new(), Vec::new()).unwrap()
}

#[test]
fn no_filters_match_every_entry() {
    let config = no_filters();
    assert!(config.entry_matches(EntryType::Dir, &"anything".to_string()));
    assert!(config.entry_matches(EntryType::File, &"".to_string()));
    assert!(config.entry_matches(EntryType::Link, &"x y z".to_string()));
}

#[test]
fn type_filter_restricts_kinds() {
    let config = build(strings(&["root"]), Vec::new(), strings(&["f"])).unwrap();
    assert!(config.entry_matches(EntryType::File, &"a.txt".to_string()));
    assert!(!config.entry_matches(EntryType::Dir, &"a.txt".to_string()));
    assert!(!config.entry_matches(EntryType::Link, &"a.txt".to_string()));
}

#[test]
fn name_filter_is_a_disjunction() {
    let config = build(strings(&["root"]), strings(&["\\.txt$", "^b"]), Vec::new()).unwrap();
    assert!(config.entry_matches(EntryType::File, &"a.txt".to_string()));
    assert!(config.entry_matches(EntryType::File, &"bcd".to_string()));
    assert!(!config.entry_matches(EntryType::File, &"c.csv".to_string()));
}

#[test]
fn name_filter_searches_anywhere_in_the_name() {
    let config = build(strings(&["root"]), strings(&["txt"]), Vec::new()).unwrap();
    assert!(config.entry_matches(EntryType::File, &"a.txt.old".to_string()));
    assert!(!config.entry_matches(EntryType::File, &"a.csv".to_string()));
}

#[test]
fn type_filter_is_order_independent() {
    let fd = build(strings(&["root"]), Vec::new(), strings(&["f", "d"])).unwrap();
    let df = build(strings(&["root"]), Vec::new(), strings(&["d", "f"])).unwrap();
    let name = "a.txt".to_string();
    for kind in [EntryType::Dir, EntryType::File, EntryType::Link] {
        assert_eq!(fd.entry_matches(kind, &name), df.entry_matches(kind, &name));
    }
}

#[test]
fn scenario_no_filters_prints_every_entry() {
    let out = run(&no_filters(), &vec![sample_tree()]);
    assert_eq!(
        out.printed,
        strings(&["root", "root/a.txt", "root/b.csv", "root/sub", "root/sub/c.txt"])
    );
    assert!(out.diagnostics.is_empty());
    assert!(out.fatal.is_none());
}

#[test]
fn scenario_file_filter_prints_only_files() {
    let config = build(strings(&["root"]), Vec::new(), strings(&["f"])).unwrap();
    let out = run(&config, &vec![sample_tree()]);
    assert_eq!(
        out.printed,
        strings(&["root/a.txt", "root/b.csv", "root/sub/c.txt"])
    );
    assert!(out.fatal.is_none());
}

#[test]
fn scenario_name_filter_prints_only_matches() {
    let config = build(strings(&["root"]), strings(&["\\.txt$"]), Vec::new()).unwrap();
    let out = run(&config, &vec![sample_tree()]);
    assert_eq!(out.printed, strings(&["root/a.txt", "root/sub/c.txt"]));
    assert!(out.fatal.is_none());
}

#[test]
fn scenario_unreadable_subdirectory_is_reported_not_fatal() {
    let walk = RootWalk {
        root: "root".to_string(),
        events: vec![
            resolved(EntryType::File, "a.txt", "root/a.txt"),
            EntryEvent::ResolutionFailure {
                description: "permission denied".to_string(),
            },
            resolved(EntryType::File, "b.txt", "root/b.txt"),
        ],
    };
    let out = run(&no_filters(), &vec![walk]);
    assert_eq!(out.printed, strings(&["root/a.txt", "root/b.txt"]));
    assert_eq!(out.diagnostics.len(), 1);
    assert_eq!(out.diagnostics[0].root, "root");
    assert_eq!(out.diagnostics[0].description, "permission denied");
    assert!(out.fatal.is_none());
}

#[test]
fn metadata_failure_aborts_the_whole_run() {
    let first = RootWalk {
        root: "root".to_string(),
        events: vec![
            resolved(EntryType::File, "a.txt", "root/a.txt"),
            EntryEvent::MetadataFailure {
                description: "input error".to_string(),
            },
            resolved(EntryType::File, "b.txt", "root/b.txt"),
        ],
    };
    let second = RootWalk {
        root: "other".to_string(),
        events: vec![resolved(EntryType::File, "c.txt", "other/c.txt")],
    };
    let out = run(&no_filters(), &vec![first, second]);
    assert_eq!(out.printed, strings(&["root/a.txt"]));
    assert!(out.diagnostics.is_empty());
    assert_eq!(out.fatal, Some("input error".to_string()));
}

#[test]
fn run_concatenates_roots_in_order() {
    let first = RootWalk {
        root: "one".to_string(),
        events: vec![resolved(EntryType::File, "a", "one/a")],
    };
    let second = RootWalk {
        root: "two".to_string(),
        events: vec![resolved(EntryType::File, "b", "two/b")],
    };
    let out = run(&no_filters(), &vec![first, second]);
    assert_eq!(out.printed, strings(&["one/a", "two/b"]));
}

#[test]
fn process_entry_emits_visible_entries() {
    let config = no_filters();
    let root = "root".to_string();
    let action = config.process_entry(&root, &resolved(EntryType::File, "a.txt", "root/a.txt"));
    match action {
        Action::Emit { path } => assert_eq!(path, "root/a.txt"),
        _ => panic!("expected the path to be emitted"),
    }
}

#[test]
fn process_entry_reports_resolution_failures() {
    let config = no_filters();
    let root = "root".to_string();
    let event = EntryEvent::ResolutionFailure {
        description: "permission denied".to_string(),
    };
    match config.process_entry(&root, &event) {
        Action::Report { root, description } => {
            assert_eq!(root, "root");
            assert_eq!(description, "permission denied");
        },
        _ => panic!("expected a diagnostic"),
    }
}

#[test]
fn process_entry_aborts_on_metadata_failure() {
    let config = no_filters();
    let root = "root".to_string();
    let event = EntryEvent::MetadataFailure {
        description: "input error".to_string(),
    };
    match config.process_entry(&root, &event) {
        Action::Abort { description } => assert_eq!(description, "input error"),
        _ => panic!("expected the run to abort"),
    }
}

#[test]
fn process_entry_ignores_filtered_entries() {
    let config = build(strings(&["root"]), strings(&["\\.txt$"]), Vec::new()).unwrap();
    let root = "root".to_string();
    let action = config.process_entry(&root, &resolved(EntryType::File, "b.csv", "root/b.csv"));
    assert!(matches!(action, Action::Ignore));
}
