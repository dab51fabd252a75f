//! Tests driving the supervision core: registration, the per-process tick,
//! the director's visitation passes, and the event model.

use procman::exited_names;
use procman::tick_events;
use procman::Delivery;
use procman::HandleType;
use procman::ManagerError;
use procman::ProcessError;
use procman::ProcessEvent;
use procman::ProcessManager;
use procman::ReadOutcome;
use procman::WaitOutcome;
use procman::MAX_LINE;

fn empty_read() -> ReadOutcome {
    ReadOutcome::Read(Vec::new(), 0)
}

/// Run the director loop under the default policy until the registry
/// empties, collecting every delivered event in order.
fn drain_director(m: &mut ProcessManager) -> Vec<Delivery> {
    let mut seen: Vec<Delivery> = Vec::new();
    let mut guard: usize = 0;
    while !m.director_done() {
        let evs = m.director_pass();
        let marks = exited_names(&evs);
        m.remove_names(&marks);
        for d in evs {
            seen.push(d);
        }
        guard += 1;
        assert!(guard < 100, "director loop did not terminate");
    }
    seen
}

#[test]
fn register_stop_stop() {
    let mut m = ProcessManager::new();
    assert!(m.register(String::from("a")).is_ok());
    assert!(m.stop_process("a").is_ok());
    assert_eq!(m.stop_process("a"), Err(ManagerError::ProcessUnknown));
}

#[test]
fn duplicate_name_rejected() {
    let mut m = ProcessManager::new();
    assert!(m.register(String::from("a")).is_ok());
    let r = m.process_tick("a", ReadOutcome::Read(b"x".to_vec(), 1), empty_read(), WaitOutcome::Running);
    assert_eq!(r, Ok(true));
    // a second registration under the same name is refused...
    assert_eq!(m.register(String::from("a")), Err(ManagerError::NameInUse));
    assert_eq!(m.len(), 1);
    // ...and the existing process's queued events are untouched
    let evs = m.director_pass();
    assert_eq!(evs.len(), 1);
    assert_eq!(evs[0].name, "a");
    match &evs[0].event {
        ProcessEvent::Output(HandleType::StdOutput, bytes, len) => {
            assert_eq!(*len, 1);
            assert_eq!(&bytes[..1], b"x");
        }
        other => panic!("unexpected event {:?}", other),
    }
}

#[test]
fn scenario_print_and_exit() {
    let mut m = ProcessManager::new();
    assert!(m.register(String::from("foo")).is_ok());
    // one tick while the process is still running: two empty reads
    assert_eq!(m.process_tick("foo", empty_read(), empty_read(), WaitOutcome::Running), Ok(true));
    // the process prints hello and exits successfully
    let out = ReadOutcome::Read(b"hello\n".to_vec(), 6);
    assert_eq!(m.process_tick("foo", out, empty_read(), WaitOutcome::Exited(0)), Ok(false));
    let seen = drain_director(&mut m);
    assert_eq!(seen.len(), 5);
    for d in &seen {
        assert_eq!(d.name, "foo");
    }
    assert!(matches!(&seen[0].event, ProcessEvent::Output(HandleType::StdOutput, _, 0)));
    assert!(matches!(&seen[1].event, ProcessEvent::Output(HandleType::StdError, _, 0)));
    match &seen[2].event {
        ProcessEvent::Output(HandleType::StdOutput, bytes, len) => {
            assert_eq!(*len, 6);
            assert_eq!(&bytes[..6], b"hello\n");
        }
        other => panic!("unexpected event {:?}", other),
    }
    assert!(matches!(&seen[3].event, ProcessEvent::Output(HandleType::StdError, _, 0)));
    assert!(matches!(&seen[4].event, ProcessEvent::Exited(0)));
    // after the director observed Exited, the entry is gone
    assert!(!m.contains("foo"));
    assert!(m.director_done());
}

#[test]
fn scenario_stderr_and_failure() {
    let mut m = ProcessManager::new();
    assert!(m.register(String::from("bar")).is_ok());
    let err = ReadOutcome::Read(b"oops".to_vec(), 4);
    assert_eq!(m.process_tick("bar", empty_read(), err, WaitOutcome::Exited(3)), Ok(false));
    let seen = drain_director(&mut m);
    assert_eq!(seen.len(), 3);
    match &seen[1].event {
        ProcessEvent::Output(HandleType::StdError, bytes, len) => {
            assert_eq!(*len, 4);
            assert_eq!(&bytes[..4], b"oops");
        }
        other => panic!("unexpected event {:?}", other),
    }
    match &seen[2].event {
        ProcessEvent::Exited(code) => assert_ne!(*code, 0),
        other => panic!("unexpected event {:?}", other),
    }
    assert!(!m.contains("bar"));
}

#[test]
fn scenario_stop_while_running() {
    let mut m = ProcessManager::new();
    assert!(m.register(String::from("svc")).is_ok());
    assert_eq!(m.process_tick("svc", empty_read(), empty_read(), WaitOutcome::Running), Ok(true));
    // an explicit stop removes the entry at once
    assert!(m.stop_process("svc").is_ok());
    assert!(!m.contains("svc"));
    // the process loop's next tick observes the stop: the name is gone, and
    // no Exited event was ever produced for it
    assert_eq!(
        m.process_tick("svc", empty_read(), empty_read(), WaitOutcome::Running),
        Err(ManagerError::ProcessUnknown)
    );
    assert_eq!(m.stop_process("svc"), Err(ManagerError::ProcessUnknown));
}

#[test]
fn director_terminates_iff_empty() {
    let mut m = ProcessManager::new();
    assert!(m.director_done());
    assert!(m.director_tick_default());
    assert!(m.register(String::from("p")).is_ok());
    assert!(!m.director_done());
    assert!(!m.director_tick_default());
    assert_eq!(m.process_tick("p", empty_read(), empty_read(), WaitOutcome::Exited(0)), Ok(false));
    let mut guard: usize = 0;
    while !m.director_tick_default() {
        guard += 1;
        assert!(guard < 100, "director loop did not terminate");
    }
    assert!(!m.contains("p"));
    assert_eq!(m.len(), 0);
}

#[test]
fn default_tick_consumes_one_event_per_pass() {
    let mut m = ProcessManager::new();
    assert!(m.register(String::from("q")).is_ok());
    // one terminal tick queues three events: two empty reads, then Exited
    assert_eq!(m.process_tick("q", empty_read(), empty_read(), WaitOutcome::Exited(0)), Ok(false));
    // each default director tick consumes exactly one of them
    assert!(!m.director_tick_default());
    assert!(!m.director_tick_default());
    assert!(m.contains("q"));
    // the third tick delivers Exited and removes the entry after the pass
    assert!(!m.director_tick_default());
    assert!(!m.contains("q"));
    // only now is the registry empty and the director done
    assert!(m.director_tick_default());
}

#[test]
fn output_length_bounded() {
    assert_eq!(MAX_LINE, 8192);
    assert!(ReadOutcome::Read(vec![0u8; MAX_LINE], MAX_LINE).is_wf());
    assert!(!ReadOutcome::Read(vec![0u8; MAX_LINE + 1], MAX_LINE + 1).is_wf());
    assert!(ProcessEvent::Output(HandleType::StdOutput, vec![7u8; 10], 10).is_wf());
    // a reported length above the bytes carried is malformed
    assert!(!ProcessEvent::Output(HandleType::StdOutput, vec![7u8; 10], 11).is_wf());
    let full = ReadOutcome::Read(vec![0u8; MAX_LINE], MAX_LINE);
    let (evs, cont) = tick_events(full, empty_read(), WaitOutcome::Running);
    assert!(cont);
    for e in &evs {
        assert!(e.is_wf());
    }
}

#[test]
fn read_and_wait_failures() {
    let bad_read = ReadOutcome::ReadError(String::from("broken pipe"));
    let bad_wait = WaitOutcome::WaitError(String::from("wait failed"));
    let (evs, cont) = tick_events(bad_read, empty_read(), bad_wait);
    assert!(!cont);
    assert_eq!(evs.len(), 3);
    // a read failure is reported and is not terminal
    match &evs[0] {
        ProcessEvent::Error(ProcessError::ErrorReading(cause)) => assert_eq!(cause.as_str(), "broken pipe"),
        other => panic!("unexpected event {:?}", other),
    }
    assert!(!evs[0].is_terminal());
    // a wait failure is reported and ends the process's supervision
    match &evs[2] {
        ProcessEvent::Error(ProcessError::ErrorWaiting(cause)) => assert_eq!(cause.as_str(), "wait failed"),
        other => panic!("unexpected event {:?}", other),
    }
    assert!(evs[2].is_terminal());
}

#[test]
fn terminality_of_events() {
    assert!(ProcessEvent::Exited(0).is_terminal());
    assert!(ProcessEvent::Exited(1).is_terminal());
    assert!(ProcessEvent::Error(ProcessError::ErrorWaiting(String::from("w"))).is_terminal());
    assert!(!ProcessEvent::Error(ProcessError::ErrorReading(String::from("r"))).is_terminal());
    assert!(!ProcessEvent::Error(ProcessError::ErrorHandling(String::from("h"))).is_terminal());
    assert!(!ProcessEvent::Output(HandleType::StdOutput, Vec::new(), 0).is_terminal());
}

#[test]
fn hook_failure_is_reported() {
    let mut m = ProcessManager::new();
    assert!(m.register(String::from("h")).is_ok());
    // a failing interception hook is captured as an ErrorHandling event
    let ev = ProcessEvent::Error(ProcessError::ErrorHandling(String::from("hook broke")));
    assert!(ev.is_wf());
    assert!(m.enqueue_event("h", ev).is_ok());
    let evs = m.director_pass();
    assert_eq!(evs.len(), 1);
    assert_eq!(evs[0].name, "h");
    match &evs[0].event {
        ProcessEvent::Error(e) => {
            assert_eq!(e.label(), "ErrorHandling");
            assert_eq!(e.cause().as_str(), "hook broke");
        }
        other => panic!("unexpected event {:?}", other),
    }
    // events for a name that is not registered are refused
    let stray = ProcessEvent::Exited(0);
    assert_eq!(m.enqueue_event("nobody", stray), Err(ManagerError::ProcessUnknown));
}

#[test]
fn queue_closed_after_terminal() {
    let mut m = ProcessManager::new();
    assert!(m.register(String::from("t")).is_ok());
    assert_eq!(m.is_queue_closed("t"), Some(false));
    assert_eq!(m.process_tick("t", empty_read(), empty_read(), WaitOutcome::Exited(0)), Ok(false));
    assert_eq!(m.is_queue_closed("t"), Some(true));
    assert_eq!(m.is_queue_closed("u"), None);
}

#[test]
fn event_labels() {
    assert_eq!(ProcessEvent::Exited(0).label(), "Exited");
    assert_eq!(ProcessEvent::Error(ProcessError::ErrorReading(String::from("r"))).label(), "Error");
    assert_eq!(ProcessEvent::Output(HandleType::StdError, Vec::new(), 0).label(), "Output");
}
