use kirby::request::{hour_bucket, targets_install_endpoint};
use kirby::text::str_eq;

#[test]
fn the_five_install_endpoints() {
    assert!(targets_install_endpoint("/api/v1/dependencies"));
    assert!(targets_install_endpoint("/latest_specs.4.8.gz"));
    assert!(targets_install_endpoint("/prerelease_specs.4.8.gz"));
    assert!(targets_install_endpoint("/specs.4.8.gz"));
    assert!(targets_install_endpoint("/versions"));
}

#[test]
fn other_paths_are_no_install_endpoints() {
    assert!(!targets_install_endpoint(""));
    assert!(!targets_install_endpoint("/"));
    assert!(!targets_install_endpoint("/versions/"));
    assert!(!targets_install_endpoint("/Versions"));
    assert!(!targets_install_endpoint("versions"));
    assert!(!targets_install_endpoint("/api/v1/dependencies?gems=rails"));
    assert!(!targets_install_endpoint("/gems/rails-5.2.0.gem"));
    assert!(!targets_install_endpoint("/specs.4.8"));
}

#[test]
fn hour_bucket_truncates_and_pads() {
    assert_eq!(hour_bucket("2023-04-01T10:15:30Z"), Some("2023-04-01T10:00:00".to_string()));
    assert_eq!(hour_bucket("2023-04-01T10:59:59Z"), Some("2023-04-01T10:00:00".to_string()));
    assert_eq!(hour_bucket("2018-06-30T23:00:00+0000"), Some("2018-06-30T23:00:00".to_string()));
}

#[test]
fn hour_bucket_of_exactly_fourteen_characters() {
    assert_eq!(hour_bucket("2023-04-01T10:"), Some("2023-04-01T10:00:00".to_string()));
}

#[test]
fn hour_bucket_of_a_short_timestamp() {
    assert_eq!(hour_bucket("2023-04-01T10"), None);
    assert_eq!(hour_bucket(""), None);
}

#[test]
fn hour_bucket_counts_characters() {
    assert_eq!(hour_bucket("éééééééééééééé-rest"), Some("éééééééééééééé00:00".to_string()));
    assert_eq!(hour_bucket("ééééééé"), None);
}

#[test]
fn hour_bucket_keeps_what_it_is_given() {
    assert_eq!(hour_bucket("not a timestamp at all"), Some("not a timestam00:00".to_string()));
}

#[test]
fn str_eq_compares_characters() {
    assert!(str_eq("", ""));
    assert!(str_eq("abc", "abc"));
    assert!(str_eq("häßlich", "häßlich"));
    assert!(!str_eq("abc", "abd"));
    assert!(!str_eq("abc", "ab"));
    assert!(!str_eq("", "a"));
    assert!(!str_eq("é", "e"));
}
