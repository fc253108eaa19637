use kirby::builder::{build, unknown_user_agents};
use kirby::counts::Category;
use kirby::request::DecodedRequest;
use kirby::stats::{combine_stats, StatsError, StatsMap};
use kirby::user_agent::UserAgentParser;

const BUNDLER: &str =
    "bundler/1.16.1 rubygems/2.6.11 ruby/2.4.1 (x86_64-pc-linux-gnu) command/install 59dbf8e99fa09c0a";
const RUBYGEMS: &str = "Ruby, RubyGems/2.6.11 x86_64-linux Ruby/2.1.6 (2015-04-13 patchlevel 336)";
const GEMS: &str = "Ruby, Gems 2.6.11";
const STRANGER: &str = "Mozilla/5.0 (compatible; crawler)";
const HOUR: &str = "2023-04-01T10:00:00";

fn parser() -> UserAgentParser {
    match UserAgentParser::new() {
        Ok(p) => p,
        Err(e) => panic!("{}", e.message),
    }
}

fn request(timestamp: &str, user_agent: &str, request_path: &str) -> DecodedRequest {
    DecodedRequest {
        timestamp: timestamp.to_string(),
        user_agent: user_agent.to_string(),
        request_path: request_path.to_string(),
    }
}

fn sorted(stats: &StatsMap) -> Vec<(String, &'static str, String, u64)> {
    let mut listed: Vec<(String, &'static str, String, u64)> = stats
        .entries()
        .into_iter()
        .map(|e| (e.hour, e.category.as_str(), e.version, e.count))
        .collect();
    listed.sort();
    listed
}

fn built(requests: &Vec<DecodedRequest>) -> StatsMap {
    match build(requests, &parser()) {
        Ok(stats) => stats,
        Err(e) => panic!("{:?}", e),
    }
}

#[test]
fn record_counts_each_version() {
    let mut stats = StatsMap::new();
    let p = parser();
    assert_eq!(stats.record(&request("2023-04-01T10:15:30Z", BUNDLER, "/versions"), &p), Ok(()));
    assert_eq!(
        sorted(&stats),
        vec![
            (HOUR.to_string(), "bundler", "1.16.1".to_string(), 1),
            (HOUR.to_string(), "client", "2.6.11".to_string(), 1),
            (HOUR.to_string(), "runtime", "2.4.1".to_string(), 1),
        ]
    );
}

#[test]
fn other_paths_contribute_nothing() {
    let mut stats = StatsMap::new();
    let p = parser();
    for path in ["/gems/rails-5.2.0.gem", "/", "", "/versions.list", "/api/v1/gems"] {
        for agent in [BUNDLER, RUBYGEMS, GEMS, STRANGER, ""] {
            assert_eq!(stats.record(&request("2023-04-01T10:15:30Z", agent, path), &p), Ok(()));
        }
    }
    assert!(stats.entries().is_empty());
}

#[test]
fn other_paths_are_passed_over_even_with_a_short_timestamp() {
    let mut stats = StatsMap::new();
    assert_eq!(stats.record(&request("soon", BUNDLER, "/gems/rails-5.2.0.gem"), &parser()), Ok(()));
    assert!(stats.entries().is_empty());
}

#[test]
fn unrecognized_agents_leave_no_trace() {
    let mut stats = StatsMap::new();
    assert_eq!(stats.record(&request("2023-04-01T10:15:30Z", STRANGER, "/versions"), &parser()), Ok(()));
    assert!(stats.entries().is_empty());
}

#[test]
fn same_hour_same_counter() {
    let mut stats = StatsMap::new();
    let p = parser();
    assert_eq!(stats.record(&request("2023-04-01T10:15:30Z", GEMS, "/versions"), &p), Ok(()));
    assert_eq!(stats.record(&request("2023-04-01T10:59:59Z", GEMS, "/specs.4.8.gz"), &p), Ok(()));
    assert_eq!(sorted(&stats), vec![(HOUR.to_string(), "client", "2.6.11".to_string(), 2)]);
}

#[test]
fn different_hours_different_counters() {
    let mut stats = StatsMap::new();
    let p = parser();
    assert_eq!(stats.record(&request("2023-04-01T10:59:59Z", GEMS, "/versions"), &p), Ok(()));
    assert_eq!(stats.record(&request("2023-04-01T11:00:00Z", GEMS, "/versions"), &p), Ok(()));
    assert_eq!(
        sorted(&stats),
        vec![
            (HOUR.to_string(), "client", "2.6.11".to_string(), 1),
            ("2023-04-01T11:00:00".to_string(), "client", "2.6.11".to_string(), 1),
        ]
    );
}

#[test]
fn short_timestamp_is_a_format_error() {
    let mut stats = StatsMap::new();
    let p = parser();
    assert_eq!(stats.record(&request("2023-04-01T10:15:30Z", GEMS, "/versions"), &p), Ok(()));
    assert_eq!(
        stats.record(&request("2023-04-01T1", GEMS, "/versions"), &p),
        Err(StatsError::TimestampFormat)
    );
    assert_eq!(
        stats.record(&request("", STRANGER, "/specs.4.8.gz"), &p),
        Err(StatsError::TimestampFormat)
    );
    assert_eq!(sorted(&stats), vec![(HOUR.to_string(), "client", "2.6.11".to_string(), 1)]);
}

#[test]
fn record_refuses_to_overflow() {
    let mut stats = StatsMap::new();
    let p = parser();
    assert_eq!(stats.add(HOUR, Category::Bundler, "1.16.1", u64::MAX), Ok(()));
    assert_eq!(
        stats.record(&request("2023-04-01T10:15:30Z", BUNDLER, "/versions"), &p),
        Err(StatsError::CounterOverflow)
    );
    assert_eq!(sorted(&stats), vec![(HOUR.to_string(), "bundler", "1.16.1".to_string(), u64::MAX)]);
    assert_eq!(stats.record(&request("2023-04-01T10:15:30Z", RUBYGEMS, "/versions"), &p), Ok(()));
    assert_eq!(stats.count(HOUR, Category::Client, "2.6.11"), 1);
}

fn three_lines() -> Vec<DecodedRequest> {
    vec![
        request("2023-04-01T10:05:00Z", STRANGER, "/versions"),
        request("2023-04-01T10:15:30Z", GEMS, "/versions"),
        request("2023-04-01T10:59:59Z", RUBYGEMS, "/versions"),
    ]
}

#[test]
fn end_to_end_aggregate() {
    let stats = built(&three_lines());
    assert_eq!(
        sorted(&stats),
        vec![
            (HOUR.to_string(), "client", "2.6.11".to_string(), 2),
            (HOUR.to_string(), "runtime", "2.1.6".to_string(), 1),
        ]
    );
}

#[test]
fn end_to_end_unknown() {
    assert_eq!(unknown_user_agents(&three_lines(), &parser()), vec![STRANGER.to_string()]);
}

#[test]
fn unknown_mode_ignores_the_path_and_keeps_the_order() {
    let requests = vec![
        request("2023-04-01T10:05:00Z", "first stranger", "/versions"),
        request("2023-04-01T10:05:00Z", BUNDLER, "/anything"),
        request("", "", "/specs.4.8.gz"),
        request("2023-04-01T10:05:00Z", "first stranger", "/gems/a.gem"),
        request("2023-04-01T10:05:00Z", GEMS, "/versions"),
    ];
    assert_eq!(
        unknown_user_agents(&requests, &parser()),
        vec!["first stranger".to_string(), "".to_string(), "first stranger".to_string()]
    );
}

#[test]
fn unknown_mode_of_no_requests() {
    assert!(unknown_user_agents(&Vec::new(), &parser()).is_empty());
}

#[test]
fn build_of_no_requests() {
    assert!(built(&Vec::new()).entries().is_empty());
}

#[test]
fn build_fails_on_a_short_timestamp() {
    let requests = vec![
        request("2023-04-01T10:15:30Z", GEMS, "/versions"),
        request("2023-04-01", GEMS, "/versions"),
        request("2023-04-01T10:15:30Z", GEMS, "/versions"),
    ];
    assert_eq!(build(&requests, &parser()).err(), Some(StatsError::TimestampFormat));
}

#[test]
fn build_counts_requests_per_counter() {
    let mut requests = Vec::new();
    for minute in 0..60 {
        requests.push(request(&format!("2023-04-01T10:{:02}:00Z", minute), BUNDLER, "/api/v1/dependencies"));
        requests.push(request(&format!("2023-04-01T11:{:02}:00Z", minute), RUBYGEMS, "/latest_specs.4.8.gz"));
        requests.push(request(&format!("2023-04-01T11:{:02}:30Z", minute), GEMS, "/prerelease_specs.4.8.gz"));
        requests.push(request(&format!("2023-04-01T11:{:02}:45Z", minute), BUNDLER, "/downloads"));
    }
    let stats = built(&requests);
    assert_eq!(stats.count(HOUR, Category::Client, "2.6.11"), 60);
    assert_eq!(stats.count(HOUR, Category::Bundler, "1.16.1"), 60);
    assert_eq!(stats.count(HOUR, Category::Runtime, "2.4.1"), 60);
    assert_eq!(stats.count("2023-04-01T11:00:00", Category::Client, "2.6.11"), 120);
    assert_eq!(stats.count("2023-04-01T11:00:00", Category::Runtime, "2.1.6"), 60);
    assert_eq!(stats.count("2023-04-01T11:00:00", Category::Bundler, "1.16.1"), 0);
    assert_eq!(stats.entries().len(), 5);
}

#[test]
fn a_source_split_in_two_builds_to_the_same() {
    let mut requests = three_lines();
    requests.push(request("2023-04-01T12:00:00Z", BUNDLER, "/versions"));
    requests.push(request("2023-04-01T10:30:00Z", BUNDLER, "/versions"));
    let whole = built(&requests);
    let second = requests.split_off(2);
    let merged = combine_stats(&built(&requests), &built(&second));
    assert_eq!(merged.ok().map(|m| sorted(&m)), Some(sorted(&whole)));
}
