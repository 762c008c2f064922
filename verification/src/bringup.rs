//! The one-shot bring-up sequence. The hardware side — clock setup,
//! the allocation arena, timers, the radio calls, the pin registers —
//! is an external collaborator; the sequence here is the decision
//! part: given whether the radio subsystem's two initialization calls
//! succeeded, either abort before any pin is configured or any task
//! is spawned, or configure the pins, register the two tasks and the
//! parked context, and hand back the running system.

use vstd::prelude::*;

use crate::pin::{idle_level, InputPin, Level, OutputPin, Pull};
use crate::sched::{Scheduler, Task, TaskBody};
use crate::tasks::{IDLE_INTERVAL_MS, POLL_INTERVAL_MS, TOGGLE_INTERVAL_MS};

verus! {

/// How many tasks the registry is sized for. Two tasks plus the
/// parked bring-up context are known at build time, so a small fixed
/// capacity is enough.
pub const TASK_CAPACITY: usize = 4;

/// The two fatal bring-up failures: the radio subsystem's first
/// initialization call failed, or the controller could not be built
/// on top of it. Either aborts bring-up before any pin or task
/// exists.
#[derive(Clone, Copy, PartialEq, Eq, Structural, Debug)]
pub enum BringUpError {
    RadioInit,
    RadioController,
}

/// What a freshly brought-up system looks like: the button poller on
/// a pull-down input pin, the toggler on an output pin driven high,
/// and the parked context, each waiting out its first interval from
/// `start`.
pub open spec fn fresh_system(s: Scheduler, start: u64) -> bool {
    &&& s.wf()
    &&& s.now == start
    &&& s.capacity == TASK_CAPACITY
    &&& s.tasks@.len() == 3
    &&& s.tasks@[0] == (Task {
        body: TaskBody::InputPoll {
            btn: InputPin { pull: Pull::Down, level: idle_level(Pull::Down) },
        },
        wake_at: (start + POLL_INTERVAL_MS) as u64,
        interval_ms: POLL_INTERVAL_MS,
    })
    &&& s.tasks@[1] == (Task {
        body: TaskBody::OutputToggle { led: OutputPin { level: Level::High } },
        wake_at: (start + TOGGLE_INTERVAL_MS) as u64,
        interval_ms: TOGGLE_INTERVAL_MS,
    })
    &&& s.tasks@[2] == (Task {
        body: TaskBody::IdleWait,
        wake_at: (start + IDLE_INTERVAL_MS) as u64,
        interval_ms: IDLE_INTERVAL_MS,
    })
}

/// Runs the bring-up decisions once, at instant `start` of the
/// monotonic clock. If either radio initialization call failed, the
/// whole sequence aborts with the matching fatal error: no pin is
/// configured, no task is spawned, no event will ever occur. If both
/// succeeded, the result is the running system of `fresh_system`:
/// output pin driven high, input pin pulled down, both tasks and the
/// parked context registered.
pub fn bring_up(radio_init_ok: bool, radio_controller_ok: bool, start: u64) -> (r: Result<
    Scheduler,
    BringUpError,
>)
    requires
        start + TOGGLE_INTERVAL_MS <= u64::MAX,
        start + IDLE_INTERVAL_MS <= u64::MAX,
        start + POLL_INTERVAL_MS <= u64::MAX,
    ensures
        !radio_init_ok ==> r == Result::<Scheduler, BringUpError>::Err(BringUpError::RadioInit),
        radio_init_ok && !radio_controller_ok ==> r == Result::<Scheduler, BringUpError>::Err(
            BringUpError::RadioController,
        ),
        radio_init_ok && radio_controller_ok ==> (r matches Ok(s) && fresh_system(s, start)),
{
    if !radio_init_ok {
        return Err(BringUpError::RadioInit);
    }
    if !radio_controller_ok {
        return Err(BringUpError::RadioController);
    }
    let mut led = OutputPin::new(Level::High);
    led.set_high();
    let btn = InputPin::new(Pull::Down);
    let mut sched = Scheduler::new(TASK_CAPACITY, start);
    // A full registry would be fatal, but three tasks go into a
    // registry of four: each `Err` arm below is provably dead.
    match sched.spawn(TaskBody::InputPoll { btn }, POLL_INTERVAL_MS) {
        Ok(_) => {},
        Err(_) => {
            proof {
                assert(false);
            }
        },
    }
    match sched.spawn(TaskBody::OutputToggle { led }, TOGGLE_INTERVAL_MS) {
        Ok(_) => {},
        Err(_) => {
            proof {
                assert(false);
            }
        },
    }
    match sched.spawn(TaskBody::IdleWait, IDLE_INTERVAL_MS) {
        Ok(_) => {},
        Err(_) => {
            proof {
                assert(false);
            }
        },
    }
    Ok(sched)
}

} // verus!
