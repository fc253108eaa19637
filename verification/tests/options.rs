use kirby::options::{Mode, Options, DEFAULT_SOURCE};

#[test]
fn default_options() {
    let options = Options::default();
    assert!(!options.verbose());
    assert!(!options.unknown());
    assert_eq!(options.mode(), Mode::Aggregate);
    assert_eq!(options.paths(), &vec!["test/sample_10.log.gz".to_string()]);
}

#[test]
fn default_source_where_none_is_given() {
    let options = Options::new(true, true, Vec::new());
    assert!(options.verbose());
    assert!(options.unknown());
    assert_eq!(options.mode(), Mode::Unknown);
    assert_eq!(options.paths(), &vec![DEFAULT_SOURCE.to_string()]);
}

#[test]
fn given_sources_are_kept_in_order() {
    let paths = vec!["b.log.gz".to_string(), "a.log.gz".to_string(), "b.log.gz".to_string()];
    let options = Options::new(false, false, paths.clone());
    assert!(!options.verbose());
    assert_eq!(options.mode(), Mode::Aggregate);
    assert_eq!(options.paths(), &paths);
}
