//! The decisions of the change watcher: when a wake-up becomes a notification,
//! and when the watcher stops. The caller owns the device handle, the clock and
//! the one-slot channel.
use vstd::prelude::*;

verus! {

/// The shortest time between two notifications, in milliseconds.
pub const MIN_NOTIFY_INTERVAL_MS: u64 = 70;

/// How long one wait for device events lasts, in milliseconds.
pub const WAIT_TIMEOUT_MS: i32 = 1000;

/// How one bounded wait for device events ended.
#[derive(Debug, Clone, Copy, PartialEq, Eq, Structural)]
pub enum WaitOutcome {
    /// Events were pending; `handled` of them were drained.
    Ready { handled: u32 },
    /// The wait timed out with nothing pending.
    TimedOut,
    /// The wait failed.
    Failed,
    /// Events were pending, but draining them failed.
    DrainFailed,
}

/// How an attempt to put a signal in the one-slot channel ended.
#[derive(Debug, Clone, Copy, PartialEq, Eq, Structural)]
pub enum SendOutcome {
    Sent,
    Full,
    Disconnected,
}

/// What the watcher does next.
#[derive(Debug, Clone, Copy, PartialEq, Eq, Structural)]
pub enum WatchStep {
    /// Try to signal the receiver.
    Signal,
    /// Wait again.
    Continue,
    /// End the watcher.
    Stop,
}

/// After a wait: signal where at least one event was drained and the last
/// notification is at least `MIN_NOTIFY_INTERVAL_MS` old; stop on a failed
/// wait or a failed drain (a hard I/O error); otherwise wait again.
pub fn after_wait(outcome: WaitOutcome, ms_since_last_notify: u64) -> (r: WatchStep)
    ensures
        r == match outcome {
            WaitOutcome::Ready { handled } => if handled > 0 && ms_since_last_notify
                >= MIN_NOTIFY_INTERVAL_MS {
                WatchStep::Signal
            } else {
                WatchStep::Continue
            },
            WaitOutcome::TimedOut => WatchStep::Continue,
            WaitOutcome::Failed => WatchStep::Stop,
            WaitOutcome::DrainFailed => WatchStep::Stop,
        },
{
    match outcome {
        WaitOutcome::Ready { handled } => if handled > 0 && ms_since_last_notify
            >= MIN_NOTIFY_INTERVAL_MS {
            WatchStep::Signal
        } else {
            WatchStep::Continue
        },
        WaitOutcome::TimedOut => WatchStep::Continue,
        WaitOutcome::Failed => WatchStep::Stop,
        WaitOutcome::DrainFailed => WatchStep::Stop,
    }
}

/// After a signal attempt: a sent signal is recorded (the notification time is
/// reset and the callback runs); a full channel drops it silently; a receiver
/// that is gone ends the watcher. The result is (record, next step).
pub fn after_send(outcome: SendOutcome) -> (r: (bool, WatchStep))
    ensures
        r == match outcome {
            SendOutcome::Sent => (true, WatchStep::Continue),
            SendOutcome::Full => (false, WatchStep::Continue),
            SendOutcome::Disconnected => (false, WatchStep::Stop),
        },
{
    match outcome {
        SendOutcome::Sent => (true, WatchStep::Continue),
        SendOutcome::Full => (false, WatchStep::Continue),
        SendOutcome::Disconnected => (false, WatchStep::Stop),
    }
}

} // verus!
