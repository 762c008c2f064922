//! The two periodic tasks' per-cycle logic. Each task is an infinite
//! loop of one cycle followed by a timed wait; the cycle bodies here
//! are the decision part of those loops, verified against the pin
//! models. The waits themselves are the scheduler's business.

use vstd::prelude::*;

use crate::pin::{flip, InputPin, Level, OutputPin};

verus! {

/// How long the button-polling task waits between cycles.
pub const POLL_INTERVAL_MS: u64 = 100;

/// How long the toggling task waits between cycles.
pub const TOGGLE_INTERVAL_MS: u64 = 1000;

/// How long the parked bring-up context waits between its empty cycles.
pub const IDLE_INTERVAL_MS: u64 = 1000;

/// What one polling cycle observed and how long to wait before the
/// next one: `asserted` is the log event's payload, true exactly when
/// the pin read high.
pub struct PollOutcome {
    pub asserted: bool,
    pub wait_ms: u64,
}

/// One cycle of the button task: read the pin and report its level as
/// a log event, then ask for the fixed poll interval. Reading never
/// fails and never changes the pin.
pub fn check_btn(btn: &InputPin) -> (r: PollOutcome)
    ensures
        r.asserted == (btn.level == Level::High),
        r.wait_ms == POLL_INTERVAL_MS,
{
    PollOutcome { asserted: btn.is_high(), wait_ms: POLL_INTERVAL_MS }
}

/// One cycle of the blinking task: flip the output pin, then ask for
/// the fixed toggle interval.
pub fn toggle_led(led: &mut OutputPin) -> (wait_ms: u64)
    ensures
        final(led).level == flip(old(led).level),
        wait_ms == TOGGLE_INTERVAL_MS,
{
    led.toggle();
    TOGGLE_INTERVAL_MS
}

/// The output pin's level after `n` toggle cycles, starting from
/// `start`.
pub open spec fn level_after(start: Level, n: nat) -> Level
    decreases n,
{
    if n == 0 {
        start
    } else {
        flip(level_after(start, (n - 1) as nat))
    }
}

/// Toggle property: for every n, the level after the (n+1)-th toggle
/// cycle is the logical complement of the level after the n-th.
pub proof fn lemma_toggle_alternates(start: Level, n: nat)
    ensures
        level_after(start, n + 1) == flip(level_after(start, n)),
{
}

} // verus!
