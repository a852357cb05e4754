use adalight_listener::hidden_window::{SessionEvent, TimerCommand, WindowState};
use adalight_listener::serial_port::{
    is_cookie, judge_final, judge_read, PortProbe, ProbeVerdict, ReadOutcome, SerialLink,
};
use adalight_listener::settings::{DisplayConfiguration, LedPosition, Settings};
use adalight_listener::update_timer::{
    resource_step, sleep_left, ResourceStep, TimerEvent, TimerState,
};

fn settings() -> Settings {
    let display = DisplayConfiguration {
        horizontal_count: 1,
        vertical_count: 1,
        positions: vec![LedPosition { x: 0, y: 0 }],
    };
    Settings::new(0, 0, 5000, 30, 3000, vec![display], vec![]).expect("build the settings")
}

#[test]
fn timer_throttle_and_resume_are_idempotent() {
    let mut timer = TimerState::new(&settings());
    assert_eq!(timer.tick(), (TimerEvent::Fired, 33));
    assert!(timer.throttle());
    assert!(!timer.throttle());
    assert_eq!(timer.tick(), (TimerEvent::Fired, 3000));
    assert!(timer.resume());
    assert!(!timer.resume());
    assert!(timer.stop());
    assert!(!timer.stop());
    assert_eq!(timer.tick().0, TimerEvent::Stopped);
    assert!(!timer.throttle());
    timer.start();
    assert_eq!(timer.tick().0, TimerEvent::Fired);
}

#[test]
fn late_ticks_do_not_burst() {
    assert_eq!(sleep_left(10, 33), 23);
    assert_eq!(sleep_left(33, 33), 0);
    assert_eq!(sleep_left(100, 33), 0);
}

#[test]
fn worker_resource_steps() {
    assert_eq!(resource_step(true, false, true), ResourceStep::Resume);
    assert_eq!(resource_step(false, true, true), ResourceStep::Resume);
    assert_eq!(resource_step(true, true, false), ResourceStep::Throttle);
    assert_eq!(resource_step(false, false, true), ResourceStep::Throttle);
}

#[test]
fn session_events_drive_the_timer() {
    let mut state = WindowState::new(false);
    assert_eq!(state.on_event(SessionEvent::Created), vec![TimerCommand::Resume, TimerCommand::Start]);
    assert_eq!(state.on_event(SessionEvent::SessionLock), vec![TimerCommand::Stop]);
    assert_eq!(
        state.on_event(SessionEvent::DisplayChange),
        vec![TimerCommand::Stop, TimerCommand::Resume, TimerCommand::Start]
    );
    assert_eq!(state.on_event(SessionEvent::ConsoleDisconnect), vec![TimerCommand::Stop]);
    assert!(!state.connected_to_console);
    assert_eq!(state.on_event(SessionEvent::SessionUnlock), vec![]);
    assert_eq!(
        state.on_event(SessionEvent::ConsoleConnect),
        vec![TimerCommand::Resume, TimerCommand::Start]
    );
    let mut remote = WindowState::new(true);
    assert_eq!(remote.on_event(SessionEvent::Created), vec![]);
    assert_eq!(remote.on_event(SessionEvent::Destroy), vec![]);
}

#[test]
fn cookie_is_recognized() {
    assert!(is_cookie(b"Ada\n"));
    assert!(!is_cookie(b"Ada"));
    assert!(!is_cookie(b"Adb\n"));
    assert_eq!(judge_read(&ReadOutcome::Incomplete), ProbeVerdict::Keep);
    assert_eq!(judge_read(&ReadOutcome::Failed), ProbeVerdict::Drop);
    assert_eq!(judge_read(&ReadOutcome::Complete(b"Ada\n".to_vec())), ProbeVerdict::Found);
    assert_eq!(judge_read(&ReadOutcome::Complete(b"xyz\n".to_vec())), ProbeVerdict::Drop);
    assert_eq!(judge_final(&ReadOutcome::Incomplete), ProbeVerdict::Drop);
}

#[test]
fn serial_probe_finds_port_seven() {
    let mut probe = PortProbe::new();
    let mut pending: Vec<u8> = Vec::new();
    let mut opened: Vec<u8> = Vec::new();
    while let Some(port) = probe.next_port() {
        // poll what is outstanding
        let mut still = Vec::new();
        for &p in &pending {
            let outcome = if p == 7 {
                ReadOutcome::Complete(b"Ada\n".to_vec())
            } else if p % 2 == 0 {
                ReadOutcome::Complete(b"noop".to_vec())
            } else {
                ReadOutcome::Incomplete
            };
            if probe.record(p, judge_read(&outcome)) {
                still.push(p);
            }
        }
        pending = still;
        if probe.found != 0 {
            break;
        }
        opened.push(port);
        pending.push(port);
    }
    assert_eq!(probe.found, 7);
    assert_eq!(opened, (1..=7).collect::<Vec<u8>>());

    let mut link = SerialLink::new();
    assert!(link.needs_probe());
    link.probed(probe.found);
    assert_eq!(link.port_to_open(), Some(7));
    link.opened(true);
    assert!(link.sent(true, 78, 78));
    // a short write closes the link, which keeps the port
    assert!(!link.sent(true, 10, 78));
    assert!(!link.connected);
    assert!(!link.needs_probe());
    assert_eq!(link.port_to_open(), Some(7));
}

#[test]
fn serial_probe_covers_all_ports() {
    let mut probe = PortProbe::new();
    let mut ports = Vec::new();
    while let Some(port) = probe.next_port() {
        ports.push(port);
        probe.record(port, ProbeVerdict::Drop);
    }
    assert_eq!(ports, (1..=255).collect::<Vec<u8>>());
    assert_eq!(probe.found, 0);
}
