use kirby::counts::Category;
use kirby::stats::{combine_all, combine_stats, StatsError, StatsMap};
use kirby::user_agent::ParsedUserAgent;

const HOUR: &str = "2023-04-01T10:00:00";
const NEXT: &str = "2023-04-01T11:00:00";

fn sorted(stats: &StatsMap) -> Vec<(String, &'static str, String, u64)> {
    let mut listed: Vec<(String, &'static str, String, u64)> = stats
        .entries()
        .into_iter()
        .map(|e| (e.hour, e.category.as_str(), e.version, e.count))
        .collect();
    listed.sort();
    listed
}

fn of(counters: &[(&str, Category, &str, u64)]) -> StatsMap {
    let mut stats = StatsMap::new();
    for (hour, category, version, n) in counters {
        assert_eq!(stats.add(hour, *category, version, *n), Ok(()));
    }
    stats
}

fn agent(client: &str, bundler: Option<&str>, runtime: Option<&str>) -> ParsedUserAgent {
    ParsedUserAgent {
        client_version: client.to_string(),
        bundler_version: bundler.map(|s| s.to_string()),
        runtime_version: runtime.map(|s| s.to_string()),
    }
}

#[test]
fn new_statistics_are_empty() {
    let stats = StatsMap::new();
    assert!(stats.entries().is_empty());
    assert_eq!(stats.count(HOUR, Category::Client, "2.6.11"), 0);
}

#[test]
fn category_names() {
    assert_eq!(Category::Client.as_str(), "client");
    assert_eq!(Category::Bundler.as_str(), "bundler");
    assert_eq!(Category::Runtime.as_str(), "runtime");
}

#[test]
fn add_creates_and_raises_counters() {
    let mut stats = StatsMap::new();
    assert_eq!(stats.add(HOUR, Category::Client, "2.6.11", 1), Ok(()));
    assert_eq!(stats.add(HOUR, Category::Client, "2.6.11", 2), Ok(()));
    assert_eq!(stats.add(HOUR, Category::Runtime, "2.6.11", 5), Ok(()));
    assert_eq!(stats.add(NEXT, Category::Client, "2.6.11", 7), Ok(()));
    assert_eq!(stats.count(HOUR, Category::Client, "2.6.11"), 3);
    assert_eq!(stats.count(HOUR, Category::Runtime, "2.6.11"), 5);
    assert_eq!(stats.count(HOUR, Category::Bundler, "2.6.11"), 0);
    assert_eq!(stats.count(NEXT, Category::Client, "2.6.11"), 7);
    assert_eq!(stats.count(NEXT, Category::Client, "2.6.12"), 0);
}

#[test]
fn add_refuses_to_overflow() {
    let mut stats = StatsMap::new();
    assert_eq!(stats.add(HOUR, Category::Client, "1.0", u64::MAX - 1), Ok(()));
    assert_eq!(stats.add(HOUR, Category::Client, "1.0", 2), Err(StatsError::CounterOverflow));
    assert_eq!(stats.count(HOUR, Category::Client, "1.0"), u64::MAX - 1);
    assert_eq!(stats.add(HOUR, Category::Client, "1.0", 1), Ok(()));
    assert_eq!(stats.count(HOUR, Category::Client, "1.0"), u64::MAX);
    assert_eq!(stats.add(HOUR, Category::Client, "1.0", 1), Err(StatsError::CounterOverflow));
    assert_eq!(stats.add(HOUR, Category::Client, "1.0", 0), Ok(()));
    assert_eq!(stats.count(HOUR, Category::Client, "1.0"), u64::MAX);
}

#[test]
fn entries_list_every_counter_once() {
    let stats = of(&[
        (HOUR, Category::Client, "2.6.11", 2),
        (NEXT, Category::Bundler, "1.16.1", 1),
        (HOUR, Category::Runtime, "2.4.1", 3),
        (HOUR, Category::Client, "2.6.11", 4),
        (HOUR, Category::Client, "2.7.0", 1),
    ]);
    assert_eq!(
        sorted(&stats),
        vec![
            (HOUR.to_string(), "client", "2.6.11".to_string(), 6),
            (HOUR.to_string(), "client", "2.7.0".to_string(), 1),
            (HOUR.to_string(), "runtime", "2.4.1".to_string(), 3),
            (NEXT.to_string(), "bundler", "1.16.1".to_string(), 1),
        ]
    );
}

#[test]
fn tally_counts_each_version_that_is_reported() {
    let mut stats = StatsMap::new();
    assert_eq!(stats.tally(HOUR, &agent("2.6.11", Some("1.16.1"), Some("2.4.1"))), Ok(()));
    assert_eq!(stats.tally(HOUR, &agent("2.6.11", None, Some("2.4.1"))), Ok(()));
    assert_eq!(stats.tally(HOUR, &agent("2.6.11", Some("1.16.1"), None)), Ok(()));
    assert_eq!(stats.tally(HOUR, &agent("1.1.1", None, None)), Ok(()));
    assert_eq!(
        sorted(&stats),
        vec![
            (HOUR.to_string(), "bundler", "1.16.1".to_string(), 2),
            (HOUR.to_string(), "client", "1.1.1".to_string(), 1),
            (HOUR.to_string(), "client", "2.6.11".to_string(), 3),
            (HOUR.to_string(), "runtime", "2.4.1".to_string(), 2),
        ]
    );
}

#[test]
fn tally_keeps_categories_apart() {
    let mut stats = StatsMap::new();
    assert_eq!(stats.tally(HOUR, &agent("2.0", Some("2.0"), Some("2.0"))), Ok(()));
    assert_eq!(stats.count(HOUR, Category::Client, "2.0"), 1);
    assert_eq!(stats.count(HOUR, Category::Bundler, "2.0"), 1);
    assert_eq!(stats.count(HOUR, Category::Runtime, "2.0"), 1);
}

#[test]
fn tally_changes_nothing_when_a_counter_is_full() {
    let mut stats = of(&[(HOUR, Category::Runtime, "2.4.1", u64::MAX), (HOUR, Category::Client, "2.6.11", 4)]);
    assert_eq!(
        stats.tally(HOUR, &agent("2.6.11", Some("1.16.1"), Some("2.4.1"))),
        Err(StatsError::CounterOverflow)
    );
    assert_eq!(stats.count(HOUR, Category::Client, "2.6.11"), 4);
    assert_eq!(stats.count(HOUR, Category::Bundler, "1.16.1"), 0);
    assert_eq!(stats.count(HOUR, Category::Runtime, "2.4.1"), u64::MAX);
    assert_eq!(stats.entries().len(), 2);
}

fn a() -> StatsMap {
    of(&[
        (HOUR, Category::Client, "2.6.11", 2),
        (HOUR, Category::Runtime, "2.4.1", 1),
        (NEXT, Category::Client, "2.6.11", 5),
    ])
}

fn b() -> StatsMap {
    of(&[
        (HOUR, Category::Client, "2.6.11", 3),
        (HOUR, Category::Client, "2.7.0", 1),
        (HOUR, Category::Bundler, "1.16.1", 4),
    ])
}

fn c() -> StatsMap {
    of(&[
        (NEXT, Category::Client, "2.6.11", 1),
        (HOUR, Category::Bundler, "1.16.1", 1),
        ("2023-04-02T00:00:00", Category::Runtime, "2.5.0", 9),
    ])
}

fn combined(left: &StatsMap, right: &StatsMap) -> StatsMap {
    match combine_stats(left, right) {
        Ok(sum) => sum,
        Err(e) => panic!("{:?}", e),
    }
}

#[test]
fn combine_sums_the_counters_of_both() {
    assert_eq!(
        sorted(&combined(&a(), &b())),
        vec![
            (HOUR.to_string(), "bundler", "1.16.1".to_string(), 4),
            (HOUR.to_string(), "client", "2.6.11".to_string(), 5),
            (HOUR.to_string(), "client", "2.7.0".to_string(), 1),
            (HOUR.to_string(), "runtime", "2.4.1".to_string(), 1),
            (NEXT.to_string(), "client", "2.6.11".to_string(), 5),
        ]
    );
}

#[test]
fn combine_leaves_its_operands_alone() {
    let left = a();
    let right = b();
    let before_left = sorted(&left);
    let before_right = sorted(&right);
    let _ = combined(&left, &right);
    assert_eq!(sorted(&left), before_left);
    assert_eq!(sorted(&right), before_right);
}

#[test]
fn combine_is_commutative() {
    assert_eq!(sorted(&combined(&a(), &b())), sorted(&combined(&b(), &a())));
    assert_eq!(sorted(&combined(&a(), &c())), sorted(&combined(&c(), &a())));
}

#[test]
fn combine_is_associative() {
    let left_first = combined(&combined(&a(), &b()), &c());
    let right_first = combined(&a(), &combined(&b(), &c()));
    assert_eq!(sorted(&left_first), sorted(&right_first));
}

#[test]
fn combine_with_empty_is_identity() {
    assert_eq!(sorted(&combined(&a(), &StatsMap::new())), sorted(&a()));
    assert_eq!(sorted(&combined(&StatsMap::new(), &a())), sorted(&a()));
    assert!(combined(&StatsMap::new(), &StatsMap::new()).entries().is_empty());
}

#[test]
fn combine_refuses_to_overflow() {
    let left = of(&[(HOUR, Category::Client, "1.0", u64::MAX), (HOUR, Category::Client, "2.0", 1)]);
    let right = of(&[(HOUR, Category::Client, "2.0", 1), (HOUR, Category::Client, "1.0", 1)]);
    assert_eq!(combine_stats(&left, &right).err(), Some(StatsError::CounterOverflow));
    assert_eq!(combine_stats(&right, &left).err(), Some(StatsError::CounterOverflow));
    let fits = of(&[(HOUR, Category::Client, "1.0", 0), (HOUR, Category::Bundler, "1.0", 1)]);
    assert_eq!(combined(&left, &fits).count(HOUR, Category::Client, "1.0"), u64::MAX);
}

#[test]
fn combine_all_folds_every_part() {
    let parts = vec![a(), b(), c()];
    let all = match combine_all(&parts) {
        Ok(all) => all,
        Err(e) => panic!("{:?}", e),
    };
    assert_eq!(sorted(&all), sorted(&combined(&combined(&a(), &b()), &c())));
    assert_eq!(all.count(HOUR, Category::Bundler, "1.16.1"), 5);
    assert_eq!(all.count(NEXT, Category::Client, "2.6.11"), 6);
}

#[test]
fn combine_all_in_any_order() {
    let one = combine_all(&vec![a(), b(), c()]).ok().map(|m| sorted(&m));
    let other = combine_all(&vec![c(), a(), b()]).ok().map(|m| sorted(&m));
    assert!(one.is_some());
    assert_eq!(one, other);
}

#[test]
fn combine_all_of_nothing_and_of_one() {
    let none: Vec<StatsMap> = Vec::new();
    assert!(combine_all(&none).ok().map(|m| m.entries().is_empty()).unwrap_or(false));
    assert_eq!(combine_all(&vec![a()]).ok().map(|m| sorted(&m)), Some(sorted(&a())));
}

#[test]
fn combine_all_refuses_to_overflow() {
    let full = of(&[(HOUR, Category::Client, "1.0", u64::MAX)]);
    let one = of(&[(HOUR, Category::Client, "1.0", 1)]);
    assert_eq!(combine_all(&vec![a(), full, one]).err(), Some(StatsError::CounterOverflow));
}
