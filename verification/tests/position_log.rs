use netsync::position_log::Estimate;
use netsync::position_log::PositionLog;
use std::time::Duration;

#[derive(Clone, Copy, Debug, PartialEq)]
struct Vector2 {
    x: f32,
    y: f32,
}

impl Vector2 {
    fn new(x: f32, y: f32) -> Self {
        Vector2 { x, y }
    }
}

fn seconds(nanos: u128) -> f64 {
    Duration::new((nanos / 1_000_000_000) as u64, (nanos % 1_000_000_000) as u32).as_secs_f64()
}

/// The position that an estimate stands for.
fn resolve(estimate: Estimate<Vector2>) -> Vector2 {
    match estimate {
        Estimate::At(position) => position,
        Estimate::Between { earlier, later, since_earlier, until_later } => {
            let t1 = seconds(since_earlier);
            let t2 = seconds(until_later);
            let ratio = (t2 / (t1 + t2)) as f32;
            Vector2::new(
                later.x + (earlier.x - later.x) * ratio,
                later.y + (earlier.y - later.y) * ratio,
            )
        }
    }
}

fn find(log: &PositionLog<Vector2>, target: Duration, now: Duration, here: Vector2) -> Vector2 {
    resolve(log.find(target.as_nanos(), now.as_nanos(), here))
}

fn store(log: &mut PositionLog<Vector2>, position: Vector2, time: Duration) {
    log.store(position, time.as_nanos());
}

#[test]
fn test_find() {
    let mut log = PositionLog::new();
    store(&mut log, Vector2::new(2.0, 2.2), Duration::from_secs(1));
    store(&mut log, Vector2::new(8.0, 8.2), Duration::from_secs(4));
    store(&mut log, Vector2::new(32.0, 32.2), Duration::from_secs(16));
    store(&mut log, Vector2::new(38.0, 38.2), Duration::from_secs(19));

    let current_time = Duration::from_secs(21);
    let current_position = Vector2::new(40.0, 40.2);

    assert_eq!(
        find(&log, Duration::from_secs(1), current_time, current_position),
        Vector2::new(2.0, 2.2),
        "Precise. The first logged position.",
    );

    assert_eq!(
        find(&log, Duration::from_secs(4), current_time, current_position),
        Vector2::new(8.0, 8.2),
        "Precise. The second logged position.",
    );

    assert_eq!(
        find(&log, Duration::from_secs(16), current_time, current_position),
        Vector2::new(32.0, 32.2),
        "Precise. The third logged position.",
    );

    assert_eq!(
        find(&log, Duration::from_secs(19), current_time, current_position),
        Vector2::new(38.0, 38.2),
        "Precise. The fourth and last logged position.",
    );

    assert_eq!(
        find(&log, Duration::from_secs(21), current_time, current_position),
        Vector2::new(40.0, 40.2),
        "Precise. The current position.",
    );

    assert_eq!(
        find(&log, Duration::from_secs(5), current_time, current_position),
        Vector2::new(10.0, 10.200001),
        "Average. Near the second logged position.",
    );

    assert_eq!(
        find(&log, Duration::from_secs(15), current_time, current_position),
        Vector2::new(30.0, 30.2),
        "Average. Near the third logged position.",
    );

    assert_eq!(
        find(&log, Duration::from_secs(20), current_time, current_position),
        Vector2::new(39.0, 39.2),
        "Average. Between the last logged and current position.",
    );

    assert_eq!(
        find(&log, Duration::from_secs(0), current_time, current_position),
        Vector2::new(2.0, 2.2),
        "Out of range. Before first log. Return the earliest (first logged) position.",
    );

    assert_eq!(
        find(&log, Duration::from_secs(22), current_time, current_position),
        Vector2::new(40.0, 40.2),
        "Out of range. After last log and current time. Return the latest (current) position.",
    );
}

const SECOND: u128 = 1_000_000_000;

fn sample_log() -> PositionLog<u32> {
    let mut log = PositionLog::new();
    log.store(2, SECOND);
    log.store(8, 4 * SECOND);
    log.store(32, 16 * SECOND);
    log.store(38, 19 * SECOND);
    log
}

#[test]
fn test_find_exact_sample() {
    let log = sample_log();
    assert_eq!(log.find(SECOND, 21 * SECOND, 40), Estimate::At(2));
    assert_eq!(log.find(4 * SECOND, 21 * SECOND, 40), Estimate::At(8));
    assert_eq!(log.find(16 * SECOND, 21 * SECOND, 40), Estimate::At(32));
    assert_eq!(log.find(19 * SECOND, 21 * SECOND, 40), Estimate::At(38));
}

#[test]
fn test_find_exact_sample_even_after_now() {
    let log = sample_log();
    assert_eq!(log.find(19 * SECOND, 10 * SECOND, 40), Estimate::At(38));
}

#[test]
fn test_find_between_two_samples() {
    let log = sample_log();
    assert_eq!(
        log.find(5 * SECOND, 21 * SECOND, 40),
        Estimate::Between {
            earlier: 8,
            later: 32,
            since_earlier: SECOND,
            until_later: 11 * SECOND,
        },
    );
    assert_eq!(
        log.find(15 * SECOND, 21 * SECOND, 40),
        Estimate::Between {
            earlier: 8,
            later: 32,
            since_earlier: 11 * SECOND,
            until_later: SECOND,
        },
    );
}

#[test]
fn test_find_between_last_sample_and_now() {
    let log = sample_log();
    assert_eq!(
        log.find(20 * SECOND, 21 * SECOND, 40),
        Estimate::Between {
            earlier: 38,
            later: 40,
            since_earlier: SECOND,
            until_later: SECOND,
        },
    );
}

#[test]
fn test_find_before_history_clamps_to_oldest() {
    let log = sample_log();
    assert_eq!(log.find(0, 21 * SECOND, 40), Estimate::At(2));
    assert_eq!(log.find(SECOND - 1, 21 * SECOND, 40), Estimate::At(2));
}

#[test]
fn test_find_at_or_after_now_is_live_position() {
    let log = sample_log();
    assert_eq!(log.find(21 * SECOND, 21 * SECOND, 40), Estimate::At(40));
    assert_eq!(log.find(22 * SECOND, 21 * SECOND, 40), Estimate::At(40));
    assert_eq!(log.find(5 * SECOND, 5 * SECOND, 40), Estimate::At(40));
    assert_eq!(log.find(5 * SECOND, 3 * SECOND, 40), Estimate::At(40));
}

#[test]
fn test_find_in_empty_log_is_live_position() {
    let log = PositionLog::<u32>::new();
    assert_eq!(log.find(0, 0, 7), Estimate::At(7));
    assert_eq!(log.find(5, 10, 7), Estimate::At(7));
    assert_eq!(log.find(10, 5, 7), Estimate::At(7));
}

#[test]
fn test_find_live_position_stands_in_for_later_sample_not_older_than_now() {
    let log = sample_log();
    assert_eq!(
        log.find(5 * SECOND, 10 * SECOND, 40),
        Estimate::Between {
            earlier: 8,
            later: 40,
            since_earlier: SECOND,
            until_later: 5 * SECOND,
        },
    );
    assert_eq!(log.find(0, SECOND, 40), Estimate::At(40));
}

#[test]
fn test_find_first_stored_wins_among_equal_times() {
    let mut log = PositionLog::<u32>::new();
    log.store(1, 10);
    log.store(2, 10);
    log.store(3, 30);
    log.store(4, 30);
    assert_eq!(log.find(10, 100, 9), Estimate::At(1));
    assert_eq!(
        log.find(20, 100, 9),
        Estimate::Between { earlier: 1, later: 3, since_earlier: 10, until_later: 10 },
    );
}

#[test]
fn test_log_keeps_fifty_samples() {
    let mut log = PositionLog::<u32>::new();
    for k in 0..50u32 {
        log.store(k, (k as u128 + 1) * SECOND);
    }
    let now = 1000 * SECOND;
    assert_eq!(log.find(SECOND, now, 999), Estimate::At(0));
    assert_eq!(log.find(50 * SECOND, now, 999), Estimate::At(49));

    log.store(50, 51 * SECOND);
    assert_eq!(log.find(51 * SECOND, now, 999), Estimate::At(50));
    assert_eq!(log.find(2 * SECOND, now, 999), Estimate::At(1));
    // The oldest sample is gone: a lookup at its time clamps to the next one.
    assert_eq!(log.find(SECOND, now, 999), Estimate::At(1));
}

#[test]
fn test_log_after_wrapping_finds_every_sample_held() {
    let mut log = PositionLog::<u32>::new();
    for k in 0..120u32 {
        log.store(k, (k as u128 + 1) * SECOND);
    }
    let now = 1000 * SECOND;
    for k in 70..120u32 {
        assert_eq!(log.find((k as u128 + 1) * SECOND, now, 999), Estimate::At(k));
    }
    assert_eq!(log.find(70 * SECOND, now, 999), Estimate::At(70));
    assert_eq!(
        log.find(100 * SECOND + SECOND / 4, now, 999),
        Estimate::Between {
            earlier: 99,
            later: 100,
            since_earlier: SECOND / 4,
            until_later: 3 * SECOND / 4,
        },
    );
}
