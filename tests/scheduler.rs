use fcp::scheduler::{Action, DispatchError, Dispatcher};

#[test]
fn zero_concurrency_is_refused() {
    assert!(matches!(Dispatcher::new(3, 0), Err(DispatchError::ZeroConcurrency)));
}

#[test]
fn empty_manifest_is_done_at_once() {
    let mut d = Dispatcher::new(0, 8).ok().unwrap();
    assert_eq!(d.next_action(), Action::Done);
    assert_eq!(d.succeeded(), 0);
}

#[test]
fn never_more_running_than_the_concurrency() {
    let n = 3usize;
    let m = 10usize;
    let mut d = Dispatcher::new(m, n).ok().unwrap();
    let mut running: Vec<usize> = Vec::new();
    let mut started = Vec::new();
    let mut peak = 0;
    loop {
        match d.next_action() {
            Action::Start(i) => {
                started.push(i);
                running.push(i);
                peak = peak.max(running.len());
                assert!(running.len() <= n);
            }
            Action::Wait => {
                // finish the most recent task first, so completion order differs from dispatch order
                let t = running.pop().unwrap();
                d.complete(t, true);
            }
            Action::Done => break,
        }
    }
    assert_eq!(peak, n);
    assert_eq!(started, (0..m).collect::<Vec<_>>());
    assert_eq!(d.succeeded(), m);
    assert!(d.failed().is_empty());
}

#[test]
fn one_failure_among_five_does_not_stop_the_run() {
    let mut d = Dispatcher::new(5, 2).ok().unwrap();
    let mut running: Vec<usize> = Vec::new();
    loop {
        match d.next_action() {
            Action::Start(i) => running.push(i),
            Action::Wait => {
                let t = running.remove(0);
                d.complete(t, t != 2);
            }
            Action::Done => break,
        }
    }
    assert_eq!(d.succeeded(), 4);
    assert_eq!(d.failed(), &vec![2]);
}

#[test]
fn is_running_tracks_tasks() {
    let mut d = Dispatcher::new(2, 1).ok().unwrap();
    assert!(!d.is_running(0));
    assert_eq!(d.next_action(), Action::Start(0));
    assert!(d.is_running(0));
    assert_eq!(d.next_action(), Action::Wait);
    d.complete(0, false);
    assert!(!d.is_running(0));
    assert_eq!(d.next_action(), Action::Start(1));
    d.complete(1, true);
    assert_eq!(d.next_action(), Action::Done);
    assert_eq!(d.failed(), &vec![0]);
    assert!(!d.is_running(7));
}
