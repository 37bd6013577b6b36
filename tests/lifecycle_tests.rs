use desk_platform::lifecycle::{
    session_from_raw, vec_contains, Command, ControlMessage, LifecycleState, WorkerState,
    NO_SESSION,
};
use desk_platform::throttle::ReportThrottle;

fn serving(session: u32) -> LifecycleState {
    LifecycleState { current: Some(session), override_session: None, worker: WorkerState::Running }
}

#[test]
fn new_state_serves_nothing() {
    let s = LifecycleState::new();
    assert_eq!(s.current, None);
    assert_eq!(s.override_session, None);
    assert_eq!(s.worker, WorkerState::Absent);
}

#[test]
fn first_iteration_launches_worker() {
    let mut s = LifecycleState::new();
    let cmds = s.on_poll(&vec![1], true, Some(1));
    assert_eq!(cmds, vec![Command::NotifyClose, Command::LaunchWorker(1)]);
    assert_eq!(s.current, Some(1));
    s.worker_launched(true);
    assert_eq!(s.worker, WorkerState::Running);
}

#[test]
fn absent_worker_is_relaunched_on_timeout() {
    let mut s = LifecycleState { current: Some(1), override_session: None, worker: WorkerState::Absent };
    assert_eq!(s.on_poll(&vec![1], true, Some(1)), vec![]);
    let cmds = s.on_timeout(Some(1), false);
    assert_eq!(cmds, vec![Command::NotifyClose, Command::LaunchWorker(1)]);
    assert_eq!(s.current, Some(1));
    assert_eq!(s.worker, WorkerState::Absent);
}

#[test]
fn override_is_sticky() {
    let mut s = serving(1);
    let cmds = s.on_message(ControlMessage::OverrideSession(2));
    assert_eq!(
        cmds,
        vec![Command::NotifyClose, Command::ReleaseWorker, Command::LaunchWorker(2)]
    );
    assert_eq!(s.current, Some(2));
    assert_eq!(s.override_session, Some(2));
    s.worker_launched(true);
    // The OS still reports session 1 as active.
    assert_eq!(s.on_poll(&vec![1, 2], true, Some(1)), vec![]);
    assert_eq!(s.on_timeout(Some(1), false), vec![]);
    assert_eq!(s.current, Some(2));
    assert_eq!(s.worker, WorkerState::Running);
}

#[test]
fn override_yields_when_its_session_goes_away() {
    let mut s = LifecycleState { current: Some(2), override_session: Some(2), worker: WorkerState::Running };
    let cmds = s.on_poll(&vec![1], true, Some(1));
    assert_eq!(
        cmds,
        vec![Command::NotifyClose, Command::ReleaseWorker, Command::LaunchWorker(1)]
    );
    assert_eq!(s.current, Some(1));
    assert_eq!(s.override_session, Some(2));
}

#[test]
fn override_to_served_session_changes_nothing() {
    let mut s = serving(3);
    assert_eq!(s.on_message(ControlMessage::OverrideSession(3)), vec![]);
    assert_eq!(s, serving(3));
}

#[test]
fn close_releases_once_and_stops() {
    let mut s = serving(1);
    let cmds = s.on_message(ControlMessage::Close);
    assert_eq!(cmds, vec![Command::NotifyClose, Command::ReleaseWorker, Command::Stop]);
    assert_eq!(cmds.iter().filter(|c| **c == Command::ReleaseWorker).count(), 1);
    assert_eq!(s.worker, WorkerState::Absent);
}

#[test]
fn close_without_worker_only_stops() {
    let mut s = LifecycleState::new();
    assert_eq!(s.on_message(ControlMessage::Close), vec![Command::Stop]);
}

#[test]
fn secure_attention_is_forwarded() {
    let mut s = serving(1);
    assert_eq!(s.on_message(ControlMessage::RequestSecureAttention), vec![Command::SecureAttention]);
    assert_eq!(s, serving(1));
}

#[test]
fn timeout_switches_to_new_active_session() {
    let mut s = serving(1);
    let cmds = s.on_timeout(Some(4), false);
    assert_eq!(
        cmds,
        vec![Command::NotifyClose, Command::ReleaseWorker, Command::LaunchWorker(4)]
    );
    assert_eq!(s.current, Some(4));
    assert_eq!(s.worker, WorkerState::Absent);
}

#[test]
fn timeout_relaunches_exited_worker() {
    let mut s = serving(1);
    let cmds = s.on_timeout(Some(1), true);
    assert_eq!(
        cmds,
        vec![Command::NotifyClose, Command::ReleaseWorker, Command::LaunchWorker(1)]
    );
    s.worker_launched(false);
    assert_eq!(s.worker, WorkerState::Absent);
}

#[test]
fn failed_query_changes_nothing_but_liveness() {
    let mut s = serving(1);
    assert_eq!(s.on_timeout(None, true), vec![]);
    assert_eq!(s.worker, WorkerState::Exited);
    assert_eq!(s.current, Some(1));
    let mut t = serving(1);
    assert_eq!(t.on_poll(&vec![], false, None), vec![]);
    assert_eq!(t, serving(1));
}

#[test]
fn sharing_off_follows_active_session() {
    let mut s = serving(1);
    let cmds = s.on_poll(&vec![1, 2], false, Some(2));
    assert_eq!(
        cmds,
        vec![Command::NotifyClose, Command::ReleaseWorker, Command::LaunchWorker(2)]
    );
    assert_eq!(s.current, Some(2));
}

#[test]
fn available_session_is_kept_while_sharing() {
    let mut s = serving(1);
    assert_eq!(s.on_poll(&vec![1, 2], true, Some(2)), vec![]);
    assert_eq!(s, serving(1));
}

#[test]
fn raw_session_reading() {
    assert_eq!(session_from_raw(NO_SESSION), None);
    assert_eq!(session_from_raw(0), Some(0));
    assert_eq!(session_from_raw(7), Some(7));
}

#[test]
fn contains_finds_members_only() {
    assert!(vec_contains(&vec![3, 1, 4], 4));
    assert!(!vec_contains(&vec![3, 1, 4], 2));
    assert!(!vec_contains(&vec![], 0));
}

#[test]
fn throttle_reports_after_quiet_period() {
    let mut t = ReportThrottle::new(1000);
    assert!(!t.should_report(2000));
    assert!(!t.should_report(4000));
    assert_eq!(t.last_ms, 1000);
    assert!(t.should_report(4001));
    assert_eq!(t.last_ms, 4001);
    assert!(!t.should_report(7001));
    assert!(t.should_report(7002));
    assert!(!t.should_report(5));
}
