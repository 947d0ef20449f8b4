use brute_dispatch::lane::{AfterAttempt, Lane, BACKOFF_MS, MAX_ATTEMPTS, MIN_INTERVAL_MS};
use brute_dispatch::verdict::{
    classify_text, contains_bytes, Collector, Delivery, DispatchOutcome, Judgement,
    SuccessCriteria,
};

/// Runs `m` always-succeeding requests of duration `work` ms through `n`
/// lanes that take the next request whenever free; returns each start (lane, time).
fn simulate(n: usize, m: usize, work: u64) -> Vec<(usize, u64)> {
    let mut lanes: Vec<Lane> = (0..n).map(|_| Lane::new()).collect();
    let mut free_at = vec![0u64; n];
    let mut starts = Vec::new();
    for _ in 0..m {
        let l = (0..n).min_by_key(|&l| free_at[l]).unwrap();
        let mut now = free_at[l];
        if let Some(d) = lanes[l].pace(now) {
            now += d;
            assert_eq!(lanes[l].pace(now), None);
        }
        starts.push((l, now));
        assert_eq!(lanes[l].after_attempt(true), AfterAttempt::Publish);
        free_at[l] = now + work;
    }
    starts
}

#[test]
fn pacing_waits_out_the_interval() {
    let mut lane = Lane::new();
    assert_eq!(lane.pace(5000), None);
    assert_eq!(lane.last_start, Some(5000));
    assert_eq!(lane.pace(5300), Some(700));
    assert_eq!(lane.last_start, Some(5000));
    assert_eq!(lane.pace(5999), Some(1));
    assert_eq!(lane.pace(6000), None);
    assert_eq!(lane.pace(4000), Some(MIN_INTERVAL_MS));
}

#[test]
fn fourth_failure_is_published_without_fifth_attempt() {
    let mut lane = Lane::new();
    assert_eq!(lane.pace(0), None);
    let mut attempts = 1;
    loop {
        match lane.after_attempt(false) {
            AfterAttempt::Retry(ms) => {
                assert_eq!(ms, BACKOFF_MS);
                attempts += 1;
            }
            AfterAttempt::Publish => break,
        }
    }
    assert_eq!(attempts, 4);
    assert_eq!(lane.attempts, MAX_ATTEMPTS);
}

#[test]
fn success_after_retry_is_published() {
    let mut lane = Lane::new();
    assert_eq!(lane.pace(0), None);
    assert_eq!(lane.after_attempt(false), AfterAttempt::Retry(1000));
    assert_eq!(lane.after_attempt(true), AfterAttempt::Publish);
    assert_eq!(lane.attempts, 2);
}

#[test]
fn rate_bound_on_simulated_run() {
    for (n, m) in [(1usize, 3usize), (2, 4), (3, 7), (10, 25)] {
        let starts = simulate(n, m, 5);
        let first = starts.iter().map(|s| s.1).min().unwrap();
        let last = starts.iter().map(|s| s.1).max().unwrap();
        let k = ((m + n - 1) / n) as u64;
        assert!(last - first >= (k - 1) * 1000, "n={n} m={m}");
        for l in 0..n {
            let mine: Vec<u64> = starts.iter().filter(|s| s.0 == l).map(|s| s.1).collect();
            for w in mine.windows(2) {
                assert!(w[1] >= w[0] + 1000);
            }
        }
    }
}

#[test]
fn two_lanes_four_entries_all_succeed() {
    let starts = simulate(2, 4, 5);
    let end = starts.iter().map(|s| s.1 + 5).max().unwrap();
    assert!(end >= 1000 && end < 3000, "end={end}");
    let mut col = Collector::new(SuccessCriteria { status: None, body: None, not_body: None }, 4);
    let mut tags = Vec::new();
    for w in ["a", "b", "c", "d"] {
        let v = col.accept(DispatchOutcome {
            tag: w.to_string(),
            delivery: Delivery::Response { status: 200, body: Vec::new() },
        });
        assert_eq!(v.judgement, Judgement::Success);
        tags.push(v.tag);
    }
    assert!(col.is_done());
    assert_eq!(tags, vec!["a", "b", "c", "d"]);
}

fn all_three() -> SuccessCriteria {
    SuccessCriteria {
        status: Some(200),
        body: Some("Welcome".to_string()),
        not_body: Some("error".to_string()),
    }
}

#[test]
fn every_configured_check_is_required() {
    let c = all_three();
    assert!(classify_text(&c, 200, "Welcome back"));
    assert!(!classify_text(&c, 302, "Welcome back"));
    assert!(!classify_text(&c, 200, "Hello back"));
    assert!(!classify_text(&c, 200, "Welcome back, error"));
}

#[test]
fn absent_checks_pass() {
    let c = SuccessCriteria { status: None, body: None, not_body: None };
    assert!(classify_text(&c, 500, ""));
    let only_status = SuccessCriteria { status: Some(404), body: None, not_body: None };
    assert!(classify_text(&only_status, 404, "anything"));
    assert!(!classify_text(&only_status, 200, "anything"));
}

#[test]
fn transport_failure_is_failure() {
    let mut col = Collector::new(SuccessCriteria { status: None, body: None, not_body: None }, 1);
    assert!(!col.is_done());
    let v = col.accept(DispatchOutcome { tag: "x".to_string(), delivery: Delivery::TransportFailure });
    assert_eq!(v.judgement, Judgement::Failure);
    assert_eq!(v.tag, "x");
    assert!(col.is_done());
}

#[test]
fn body_is_decoded_permissively() {
    let c = SuccessCriteria {
        status: None,
        body: Some("caf\u{FFFD}!".to_string()),
        not_body: None,
    };
    let mut col = Collector::new(c, 2);
    let v = col.accept(DispatchOutcome {
        tag: "w".to_string(),
        delivery: Delivery::Response { status: 200, body: b"caf\xff!".to_vec() },
    });
    assert_eq!(v.judgement, Judgement::Success);
    let v = col.accept(DispatchOutcome {
        tag: "w2".to_string(),
        delivery: Delivery::Response { status: 200, body: b"cafe!".to_vec() },
    });
    assert_eq!(v.judgement, Judgement::Failure);
}

#[test]
fn verdicts_follow_completion_order() {
    let mut col = Collector::new(all_three(), 3);
    let order = [("b", 200, "Welcome"), ("a", 500, "Welcome"), ("c", 200, "an error")];
    let mut seen = Vec::new();
    for (tag, status, body) in order {
        let v = col.accept(DispatchOutcome {
            tag: tag.to_string(),
            delivery: Delivery::Response { status, body: body.as_bytes().to_vec() },
        });
        seen.push((v.tag, v.judgement));
    }
    assert_eq!(
        seen,
        vec![
            ("b".to_string(), Judgement::Success),
            ("a".to_string(), Judgement::Failure),
            ("c".to_string(), Judgement::Failure),
        ]
    );
}

#[test]
fn substring_search() {
    assert!(contains_bytes(b"hello", b""));
    assert!(contains_bytes(b"hello", b"llo"));
    assert!(contains_bytes(b"hello", b"hello"));
    assert!(!contains_bytes(b"hello", b"hello!"));
    assert!(!contains_bytes(b"", b"a"));
    assert!(!contains_bytes(b"abab", b"bb"));
}
