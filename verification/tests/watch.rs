use wisu::watch::{Debouncer, Signal, QUIET_MS};

fn paths(names: &[&str]) -> Vec<String> {
    names.iter().map(|n| n.to_string()).collect()
}

#[test]
fn burst_of_changes_gives_one_refresh() {
    let mut watch = Debouncer::new();
    assert_eq!(watch.poll(0), Signal::Idle);
    let mut refreshes = 0;
    for k in 0..20u64 {
        watch.observe(&paths(&["a", "b"]), 1000 + k * 10);
        if watch.poll(1000 + k * 10 + 5) == Signal::Refresh {
            refreshes += 1;
        }
    }
    assert_eq!(watch.poll(1190 + 299), Signal::Pending);
    assert_eq!(refreshes, 0);
    assert_eq!(watch.poll(1190 + 300), Signal::Refresh);
    assert_eq!(watch.poll(1190 + 301), Signal::Idle);
    assert_eq!(watch.poll(5000), Signal::Idle);
    assert!(watch.last_change.is_none());
}

#[test]
fn changes_far_apart_give_two_refreshes() {
    let mut watch = Debouncer::new();
    watch.observe(&paths(&["a"]), 0);
    assert_eq!(watch.poll(100), Signal::Pending);
    assert_eq!(watch.poll(QUIET_MS), Signal::Refresh);
    watch.observe(&paths(&["a"]), 700);
    assert_eq!(watch.poll(800), Signal::Pending);
    assert_eq!(watch.poll(1000), Signal::Refresh);
    assert_eq!(watch.poll(1001), Signal::Idle);
}

#[test]
fn a_change_restarts_the_quiet_time() {
    let mut watch = Debouncer::new();
    watch.observe(&paths(&["a"]), 0);
    watch.observe(&paths(&["b"]), 250);
    assert_eq!(watch.poll(400), Signal::Pending);
    assert_eq!(watch.poll(549), Signal::Pending);
    assert_eq!(watch.poll(550), Signal::Refresh);
}

#[test]
fn an_empty_batch_changes_nothing() {
    let mut watch = Debouncer::new();
    watch.observe(&Vec::new(), 10);
    assert_eq!(watch.poll(1000), Signal::Idle);
    watch.observe(&paths(&["a"]), 2000);
    watch.observe(&Vec::new(), 2200);
    assert_eq!(watch.poll(2300), Signal::Refresh);
}

#[test]
fn a_clock_that_runs_back_keeps_waiting() {
    let mut watch = Debouncer::new();
    watch.observe(&paths(&["a"]), 1000);
    assert_eq!(watch.poll(10), Signal::Pending);
    assert_eq!(watch.poll(1300), Signal::Refresh);
}
