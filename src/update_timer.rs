use crate::settings::Settings;
use vstd::prelude::*;

verus! {

/// What the timer hands the worker on each tick.
#[derive(Debug, Clone, Copy, PartialEq, Eq, Structural)]
pub enum TimerEvent {
    /// The interval elapsed: capture, render and send.
    Fired,
    /// The timer is stopping: send an all-off frame and release everything.
    Stopped,
}

/// Shared control state of the timer: whether it runs throttled, whether it
/// is stopped, and its two intervals.
#[derive(Debug, Clone, Copy, PartialEq, Eq, Structural)]
pub struct TimerState {
    pub throttled: bool,
    pub stopped: bool,
    /// Interval in milliseconds while throttled.
    pub throttle_timer: u32,
    /// Interval in milliseconds at the frame rate cap.
    pub delay: u32,
}

impl TimerState {
    /// A running, unthrottled timer with the intervals of `settings`.
    pub fn new(settings: &Settings) -> (r: Self)
        ensures
            !r.throttled,
            !r.stopped,
            r.throttle_timer == settings.throttle_timer,
            r.delay == settings.delay,
    {
        TimerState {
            throttled: false,
            stopped: false,
            throttle_timer: settings.throttle_timer,
            delay: settings.get_delay(),
        }
    }

    /// Mark the timer started.
    pub fn start(&mut self)
        ensures
            *final(self) == (TimerState { stopped: false, ..*old(self) }),
    {
        self.stopped = false;
    }

    /// Mark the timer stopped. Returns whether it was running.
    pub fn stop(&mut self) -> (r: bool)
        ensures
            *final(self) == (TimerState { stopped: true, ..*old(self) }),
            r == !old(self).stopped,
    {
        let was_running = !self.stopped;
        self.stopped = true;
        was_running
    }

    /// Switch to the throttled interval. Returns whether this changed the
    /// state of a timer that is not stopped.
    pub fn throttle(&mut self) -> (r: bool)
        ensures
            *final(self) == (TimerState { throttled: true, ..*old(self) }),
            r == (!old(self).throttled && !old(self).stopped),
    {
        let throttled = self.throttled;
        self.throttled = true;
        !throttled && !self.stopped
    }

    /// Switch back to the frame rate interval. Returns whether this changed
    /// the state of a timer that is not stopped.
    pub fn resume(&mut self) -> (r: bool)
        ensures
            *final(self) == (TimerState { throttled: false, ..*old(self) }),
            r == (old(self).throttled && !old(self).stopped),
    {
        let throttled = self.throttled;
        self.throttled = false;
        throttled && !self.stopped
    }

    /// The event of this tick, and the interval to wait before the next one.
    pub fn tick(&self) -> (r: (TimerEvent, u32))
        ensures
            self.stopped ==> r.0 == TimerEvent::Stopped,
            !self.stopped ==> r.0 == TimerEvent::Fired,
            r.1 == if self.throttled {
                self.throttle_timer
            } else {
                self.delay
            },
    {
        let interval = if self.throttled {
            self.throttle_timer
        } else {
            self.delay
        };
        if self.stopped {
            (TimerEvent::Stopped, interval)
        } else {
            (TimerEvent::Fired, interval)
        }
    }
}

/// Milliseconds left to sleep in a tick of `interval` milliseconds of which
/// `elapsed` have passed: none where the tick is already over, so late ticks
/// do not burst.
pub fn sleep_left(elapsed: u64, interval: u32) -> (r: u64)
    ensures
        r == if elapsed >= interval {
            0
        } else {
            interval - elapsed
        },
{
    if elapsed >= interval as u64 {
        0
    } else {
        interval as u64 - elapsed
    }
}

/// What the worker does about its resources on a fired tick where it held
/// none.
#[derive(Debug, Clone, Copy, PartialEq, Eq, Structural)]
pub enum ResourceStep {
    /// Output is possible: resume the full frame rate.
    Resume,
    /// No listener or no capture: throttle, and send one all-off frame where
    /// this newly throttles the timer.
    Throttle,
}

/// Whether the worker should go on and create the capture resources, given
/// which outputs opened.
pub fn should_create(port_opened: bool, pool_opened: bool) -> (r: bool)
    ensures
        r == (port_opened || pool_opened),
{
    port_opened || pool_opened
}

/// The step after trying to open the outputs and, where one opened, to
/// create the capture resources.
pub fn resource_step(port_opened: bool, pool_opened: bool, created: bool) -> (r: ResourceStep)
    ensures
        r == if (port_opened || pool_opened) && created {
            ResourceStep::Resume
        } else {
            ResourceStep::Throttle
        },
{
    if should_create(port_opened, pool_opened) && created {
        ResourceStep::Resume
    } else {
        ResourceStep::Throttle
    }
}

} // verus!
