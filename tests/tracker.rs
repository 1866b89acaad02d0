use launcher_core::app_monitor::{stop_result, AppMonitor, MonitorError};
use launcher_core::types::AppState;

#[test]
fn registered_process_is_listed_as_running() {
    let mut m = AppMonitor::new();
    m.track_app(4242, "Game");
    let apps = m.get_tracked_apps();
    assert_eq!(apps.len(), 1);
    assert_eq!(apps[0].pid, 4242);
    assert_eq!(apps[0].app_id, "Game");
    assert!(apps[0].is_running);
}

#[test]
fn registering_twice_keeps_one_running_entry() {
    let mut m = AppMonitor::new();
    m.track_app(7, "First");
    m.track_app(7, "Second");
    let apps = m.get_tracked_apps();
    assert_eq!(apps.len(), 1);
    assert_eq!(apps[0].app_id, "Second");
    assert!(apps[0].is_running);
}

#[test]
fn exited_process_reports_stopped_then_is_removed() {
    let mut m = AppMonitor::new();
    m.track_app(4242, "Game");
    let out = m.poll_tick(&vec![(4242, false)]);
    assert_eq!(out.events.len(), 1);
    assert_eq!(out.events[0].pid, 4242);
    assert_eq!(out.events[0].app_id, "Game");
    assert_eq!(out.events[0].state, AppState::Stopped);
    assert_eq!(out.stopped, vec![4242]);
    let apps = m.get_tracked_apps();
    assert_eq!(apps.len(), 1);
    assert!(!apps[0].is_running);
    m.remove_stopped(&out.stopped);
    assert!(m.get_tracked_apps().is_empty());
}

#[test]
fn removal_spares_a_process_registered_again() {
    let mut m = AppMonitor::new();
    m.track_app(10, "Old");
    let out = m.poll_tick(&vec![(10, false)]);
    m.track_app(10, "New");
    m.remove_stopped(&out.stopped);
    let apps = m.get_tracked_apps();
    assert_eq!(apps.len(), 1);
    assert_eq!(apps[0].app_id, "New");
    assert!(apps[0].is_running);
}

#[test]
fn live_running_process_causes_no_event() {
    let mut m = AppMonitor::new();
    m.track_app(1, "A");
    let out = m.poll_tick(&vec![(1, true), (99, false)]);
    assert!(out.events.is_empty());
    assert!(out.stopped.is_empty());
}

#[test]
fn discovered_process_reports_running_on_next_tick() {
    let mut m = AppMonitor::new();
    m.track_discovered(555);
    let apps = m.get_tracked_apps();
    assert_eq!(apps[0].app_id, "Fortnite");
    assert!(!apps[0].is_running);
    m.track_discovered(555);
    assert_eq!(m.get_tracked_apps().len(), 1);
    let out = m.poll_tick(&vec![(555, true)]);
    assert_eq!(out.events.len(), 1);
    assert_eq!(out.events[0].state, AppState::Running);
    assert!(out.stopped.is_empty());
    assert!(m.get_tracked_apps()[0].is_running);
}

#[test]
fn discovery_does_not_relabel_a_tracked_process() {
    let mut m = AppMonitor::new();
    m.track_app(555, "Launched");
    m.track_discovered(555);
    let apps = m.get_tracked_apps();
    assert_eq!(apps[0].app_id, "Launched");
    assert!(apps[0].is_running);
}

#[test]
fn tracked_pids_lists_each_process() {
    let mut m = AppMonitor::new();
    m.track_app(3, "C");
    m.track_app(1, "A");
    m.track_app(3, "C2");
    let mut pids = m.tracked_pids();
    pids.sort();
    assert_eq!(pids, vec![1, 3]);
}

#[test]
fn stop_app_finds_the_process_by_label() {
    let mut m = AppMonitor::new();
    m.track_app(21, "Alpha");
    m.track_app(22, "Beta");
    assert_eq!(m.stop_app("Beta"), Ok(22));
    assert_eq!(m.stop_app("Gamma"), Err(MonitorError::NotFound));
}

#[test]
fn stop_result_outcomes() {
    assert_eq!(stop_result(true, true), Ok(true));
    assert_eq!(stop_result(false, false), Ok(true));
    assert_eq!(stop_result(true, false), Err(MonitorError::KillFailed));
}
