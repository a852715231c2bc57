use birdwatcher::report::{build_report, Report};
use birdwatcher::sample::LockSample;

fn sample(pid: i32, started_at: i64, age: u64, query: &str) -> LockSample {
    LockSample {
        mode: String::from("AccessExclusiveLock"),
        pid,
        db: String::from("shop"),
        relation: String::from("orders"),
        username: String::from("admin"),
        application: String::from("batch"),
        started_at,
        age,
        query: String::from(query),
    }
}

#[test]
fn empty_store_gives_the_friendly_outcome() {
    let samples: Vec<LockSample> = Vec::new();
    assert!(matches!(build_report(&samples), Report::Empty));
}

#[test]
fn repeated_observations_collapse_to_one_episode_with_max_age() {
    // The same identity tuple observed three times, with a late write out
    // of order: one line, and its duration is the maximum age.
    let samples = vec![
        sample(7, 1_000, 50, "UPDATE orders SET x = 1"),
        sample(7, 1_000, 120, "UPDATE orders SET x = 1"),
        sample(7, 1_000, 90, "UPDATE orders SET x = 1"),
    ];
    match build_report(&samples) {
        Report::Empty => panic!("three samples must produce a report"),
        Report::Episodes(eps) => {
            assert_eq!(eps.len(), 1);
            assert_eq!(eps[0].duration, 120);
            assert_eq!(eps[0].pid, 7);
            assert_eq!(eps[0].started_at, 1_000);
            assert_eq!(eps[0].query, "UPDATE orders SET x = 1");
        }
    }
}

#[test]
fn episodes_are_ordered_by_query_start() {
    // The later episode's samples arrive first: the report still lists the
    // earlier started_at strictly before the later one.
    let samples = vec![
        sample(9, 5_000, 30, "DELETE FROM orders"),
        sample(7, 1_000, 50, "UPDATE orders SET x = 1"),
        sample(9, 5_000, 60, "DELETE FROM orders"),
        sample(7, 1_000, 80, "UPDATE orders SET x = 1"),
    ];
    match build_report(&samples) {
        Report::Empty => panic!("four samples must produce a report"),
        Report::Episodes(eps) => {
            assert_eq!(eps.len(), 2);
            assert_eq!(eps[0].started_at, 1_000);
            assert_eq!(eps[0].pid, 7);
            assert_eq!(eps[0].duration, 80);
            assert_eq!(eps[1].started_at, 5_000);
            assert_eq!(eps[1].pid, 9);
            assert_eq!(eps[1].duration, 60);
        }
    }
}

#[test]
fn identity_tuple_distinguishes_episodes() {
    // Same pid and relation, different query start: two distinct episodes.
    // Different pid on the same start: a third.
    let samples = vec![
        sample(7, 1_000, 40, "UPDATE orders SET x = 1"),
        sample(7, 2_000, 10, "UPDATE orders SET x = 1"),
        sample(8, 2_000, 25, "UPDATE orders SET x = 1"),
    ];
    match build_report(&samples) {
        Report::Empty => panic!("three samples must produce a report"),
        Report::Episodes(eps) => {
            assert_eq!(eps.len(), 3);
            assert_eq!((eps[0].pid, eps[0].started_at, eps[0].duration), (7, 1_000, 40));
            // The two episodes that began together may stand in either
            // order; both must be present.
            let mut pids = vec![eps[1].pid, eps[2].pid];
            pids.sort();
            assert_eq!(pids, vec![7, 8]);
            assert_eq!(eps[1].started_at, 2_000);
            assert_eq!(eps[2].started_at, 2_000);
        }
    }
}

#[test]
fn descriptive_fields_do_not_split_an_episode() {
    // username and application differ between two observations of the same
    // identity tuple: still one episode.
    let mut a = sample(7, 1_000, 40, "UPDATE orders SET x = 1");
    a.username = String::from("alice");
    let mut b = sample(7, 1_000, 70, "UPDATE orders SET x = 1");
    b.username = String::from("bob");
    b.application = String::from("console");
    let samples = vec![a, b];
    match build_report(&samples) {
        Report::Empty => panic!("two samples must produce a report"),
        Report::Episodes(eps) => {
            assert_eq!(eps.len(), 1);
            assert_eq!(eps[0].duration, 70);
        }
    }
}
