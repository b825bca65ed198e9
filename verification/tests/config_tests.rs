use findr::config::{build, EntryType};

fn strings(xs: &[&str]) -> Vec<String> {
    xs.iter().map(|x| x.to_string()).collect()
}

#[test]
fn build_defaults_to_current_directory() {
    let config = build(Vec::new(), Vec::new(), Vec::new()).unwrap();
    assert_eq!(config.dirs, strings(&["."]));
    assert!(config.names.is_none());
    assert!(config.entry_types.is_none());
}

#[test]
fn build_keeps_roots_in_order() {
    let config = build(strings(&["b", "a", "b"]), Vec::new(), Vec::new()).unwrap();
    assert_eq!(config.dirs, strings(&["b", "a", "b"]));
}

#[test]
fn build_compiles_patterns_in_order() {
    let config = build(strings(&["."]), strings(&["\\.txt$", "^a"]), Vec::new()).unwrap();
    let pats = config.names.unwrap();
    assert_eq!(pats.len(), 2);
    assert_eq!(pats[0].source().as_str(), "\\.txt$");
    assert_eq!(pats[1].source().as_str(), "^a");
}

#[test]
fn build_rejects_first_invalid_pattern() {
    let err = build(strings(&["."]), strings(&["ok", "(", "["]), Vec::new()).unwrap_err();
    assert_eq!(err.pattern, "(");
}

#[test]
fn build_rejects_lone_invalid_pattern() {
    let err = build(Vec::new(), strings(&["[bad"]), Vec::new()).unwrap_err();
    assert_eq!(err.pattern, "[bad");
}

#[test]
fn build_maps_type_tokens() {
    let config = build(strings(&["."]), Vec::new(), strings(&["f", "l", "d"])).unwrap();
    assert_eq!(
        config.entry_types,
        Some(vec![EntryType::File, EntryType::Link, EntryType::Dir])
    );
}

#[test]
fn build_drops_unrecognized_type_tokens() {
    let config = build(strings(&["."]), Vec::new(), strings(&["x", "d"])).unwrap();
    assert_eq!(config.entry_types, Some(vec![EntryType::Dir]));
}

#[test]
fn build_keeps_supplied_but_empty_type_filter() {
    let config = build(strings(&["."]), Vec::new(), strings(&["x"])).unwrap();
    assert_eq!(config.entry_types, Some(Vec::new()));
}
