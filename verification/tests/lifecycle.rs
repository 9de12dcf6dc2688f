use routecore::lifecycle::{Phase, ServerCtl};

#[test]
fn fresh_server_accepts() {
    let mut s = ServerCtl::new();
    assert_eq!(s.phase, Phase::Accepting);
    assert_eq!(s.in_flight, 0);
    assert!(s.try_accept());
    assert_eq!(s.in_flight, 1);
}

#[test]
fn pause_and_resume() {
    let mut s = ServerCtl::new();
    s.pause();
    assert_eq!(s.phase, Phase::Paused);
    assert!(!s.try_accept());
    assert_eq!(s.in_flight, 0);
    s.resume();
    assert_eq!(s.phase, Phase::Accepting);
    assert!(s.try_accept());
}

#[test]
fn stop_with_nothing_in_flight_stops_at_once() {
    let mut s = ServerCtl::new();
    s.request_stop();
    assert_eq!(s.phase, Phase::Stopped);
    assert_eq!(s.in_flight, 0);
    assert!(!s.try_accept());
}

#[test]
fn stop_drains_slow_handler_before_exit() {
    let mut s = ServerCtl::new();
    assert!(s.try_accept());
    s.request_stop();
    assert_eq!(s.phase, Phase::Draining);
    assert_eq!(s.in_flight, 1);
    assert!(!s.try_accept());
    s.finish_one();
    assert_eq!(s.phase, Phase::Stopped);
    assert_eq!(s.in_flight, 0);
}

#[test]
fn force_stop_terminates_remaining_work() {
    let mut s = ServerCtl::new();
    assert!(s.try_accept());
    assert!(s.try_accept());
    s.request_stop();
    assert_eq!(s.phase, Phase::Draining);
    s.force_stop();
    assert_eq!(s.phase, Phase::Stopped);
    assert_eq!(s.in_flight, 0);
}

#[test]
fn finishing_while_accepting_keeps_serving() {
    let mut s = ServerCtl::new();
    assert!(s.try_accept());
    s.finish_one();
    assert_eq!(s.phase, Phase::Accepting);
    assert_eq!(s.in_flight, 0);
    assert!(s.try_accept());
}
