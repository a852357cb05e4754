use vstd::prelude::*;

verus! {

/// Session changes that the hidden window observes.
#[derive(Debug, Clone, Copy, PartialEq, Eq, Structural)]
pub enum SessionEvent {
    /// The window was created.
    Created,
    /// The session attached to the console.
    ConsoleConnect,
    /// The session left the console.
    ConsoleDisconnect,
    /// The session was locked.
    SessionLock,
    /// The session was unlocked.
    SessionUnlock,
    /// The display configuration changed.
    DisplayChange,
    /// The window is being destroyed.
    Destroy,
}

/// An order to the update timer.
#[derive(Debug, Clone, Copy, PartialEq, Eq, Structural)]
pub enum TimerCommand {
    Resume,
    Start,
    Stop,
}

/// What the hidden window remembers: whether the session is on the console.
#[derive(Debug, Clone, Copy, PartialEq, Eq, Structural)]
pub struct WindowState {
    pub connected_to_console: bool,
}

/// Orders that bring the timer back, where the session is on the console.
pub open spec fn attach_commands(connected: bool) -> Seq<TimerCommand> {
    if connected {
        seq![TimerCommand::Resume, TimerCommand::Start]
    } else {
        Seq::empty()
    }
}

/// Orders that stop the timer, where the session is on the console.
pub open spec fn detach_commands(connected: bool) -> Seq<TimerCommand> {
    if connected {
        seq![TimerCommand::Stop]
    } else {
        Seq::empty()
    }
}

fn attach(connected: bool, out: &mut Vec<TimerCommand>)
    ensures
        final(out)@ == old(out)@ + attach_commands(connected),
{
    if connected {
        out.push(TimerCommand::Resume);
        out.push(TimerCommand::Start);
    }
    assert(out@ =~= old(out)@ + attach_commands(connected));
}

fn detach(connected: bool, out: &mut Vec<TimerCommand>)
    ensures
        final(out)@ == old(out)@ + detach_commands(connected),
{
    if connected {
        out.push(TimerCommand::Stop);
    }
    assert(out@ =~= old(out)@ + detach_commands(connected));
}

impl WindowState {
    /// The state of a new window: on the console unless this is a remote session.
    pub fn new(remote_session: bool) -> (r: Self)
        ensures
            r.connected_to_console == !remote_session,
    {
        WindowState { connected_to_console: !remote_session }
    }

    /// Handle a session event: the new state, and the orders to give the
    /// timer, in order.
    pub fn on_event(&mut self, event: SessionEvent) -> (r: Vec<TimerCommand>)
        ensures
            final(self).connected_to_console == match event {
                SessionEvent::ConsoleConnect => true,
                SessionEvent::ConsoleDisconnect => false,
                _ => old(self).connected_to_console,
            },
            r@ == match event {
                SessionEvent::Created => attach_commands(old(self).connected_to_console),
                SessionEvent::ConsoleConnect => attach_commands(true),
                SessionEvent::ConsoleDisconnect => detach_commands(old(self).connected_to_console),
                SessionEvent::SessionLock => detach_commands(old(self).connected_to_console),
                SessionEvent::SessionUnlock => attach_commands(old(self).connected_to_console),
                SessionEvent::DisplayChange => detach_commands(old(self).connected_to_console)
                    + attach_commands(old(self).connected_to_console),
                SessionEvent::Destroy => detach_commands(old(self).connected_to_console),
            },
    {
        let mut out: Vec<TimerCommand> = Vec::new();
        let ghost start = out@;
        match event {
            SessionEvent::Created => attach(self.connected_to_console, &mut out),
            SessionEvent::ConsoleConnect => {
                self.connected_to_console = true;
                attach(true, &mut out);
            },
            SessionEvent::ConsoleDisconnect => {
                detach(self.connected_to_console, &mut out);
                self.connected_to_console = false;
            },
            SessionEvent::SessionLock => detach(self.connected_to_console, &mut out),
            SessionEvent::SessionUnlock => attach(self.connected_to_console, &mut out),
            SessionEvent::DisplayChange => {
                detach(self.connected_to_console, &mut out);
                attach(self.connected_to_console, &mut out);
            },
            SessionEvent::Destroy => detach(self.connected_to_console, &mut out),
        }
        assert(start =~= Seq::<TimerCommand>::empty());
        assert(out@ =~= start + out@.skip(0));
        out
    }
}

} // verus!
