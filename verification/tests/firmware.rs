use my_esp_project::bringup::{bring_up, BringUpError, TASK_CAPACITY};
use my_esp_project::pin::{InputPin, Level, OutputPin, Pull};
use my_esp_project::sched::{Event, Scheduler, SpawnError, TaskBody};
use my_esp_project::tasks::{check_btn, toggle_led, POLL_INTERVAL_MS, TOGGLE_INTERVAL_MS};

fn toggles_of(events: &[Event]) -> Vec<(u64, Level)> {
    let mut out: Vec<(u64, Level)> = Vec::new();
    for e in events {
        if let Event::Toggle { at, level, .. } = e {
            out.push((*at, *level));
        }
    }
    out
}

fn polls_of(events: &[Event]) -> Vec<(u64, bool)> {
    let mut out: Vec<(u64, bool)> = Vec::new();
    for e in events {
        if let Event::Poll { at, asserted, .. } = e {
            out.push((*at, *asserted));
        }
    }
    out
}

#[test]
fn toggle_cycle_alternates() {
    let mut led = OutputPin::new(Level::High);
    assert_eq!(led.level, Level::High);
    led.toggle();
    assert_eq!(led.level, Level::Low);
    led.toggle();
    assert_eq!(led.level, Level::High);
    led.toggle();
    assert_eq!(led.level, Level::Low);
}

#[test]
fn output_pin_drives_levels() {
    let mut led = OutputPin::new(Level::Low);
    led.set_high();
    assert_eq!(led.level, Level::High);
    led.set_level(Level::Low);
    assert_eq!(led.level, Level::Low);
    led.set_level(Level::High);
    assert_eq!(led.level, Level::High);
}

#[test]
fn poll_reads_are_idempotent() {
    let btn = InputPin::new(Pull::Up);
    let first = btn.read_level();
    let second = btn.read_level();
    let third = btn.read_level();
    assert_eq!(first, second);
    assert_eq!(second, third);
    assert_eq!(first, Level::High);
}

#[test]
fn pull_modes_set_idle_levels() {
    assert_eq!(InputPin::new(Pull::Up).read_level(), Level::High);
    assert_eq!(InputPin::new(Pull::Down).read_level(), Level::Low);
    assert_eq!(InputPin::new(Pull::Floating).read_level(), Level::Low);
}

#[test]
fn check_btn_reports_level() {
    let mut btn = InputPin::new(Pull::Down);
    let o = check_btn(&btn);
    assert!(!o.asserted);
    assert_eq!(o.wait_ms, POLL_INTERVAL_MS);
    btn.drive(Level::High);
    let o = check_btn(&btn);
    assert!(o.asserted);
    assert_eq!(o.wait_ms, POLL_INTERVAL_MS);
}

#[test]
fn toggle_led_flips_and_waits() {
    let mut led = OutputPin::new(Level::High);
    let wait = toggle_led(&mut led);
    assert_eq!(wait, TOGGLE_INTERVAL_MS);
    assert_eq!(led.level, Level::Low);
    let wait = toggle_led(&mut led);
    assert_eq!(wait, TOGGLE_INTERVAL_MS);
    assert_eq!(led.level, Level::High);
}

#[test]
fn spawn_rejects_when_registry_is_full() {
    let mut sched = Scheduler::new(2, 0);
    assert!(sched.spawn(TaskBody::IdleWait, 500).is_ok());
    assert!(sched.spawn(TaskBody::IdleWait, 500).is_ok());
    let r = sched.spawn(TaskBody::IdleWait, 500);
    assert_eq!(r, Err(SpawnError::CapacityExceeded));
    assert_eq!(sched.tasks.len(), 2);
}

#[test]
fn bring_up_aborts_on_radio_init_failure() {
    let r = bring_up(false, true, 0);
    assert_eq!(r.err(), Some(BringUpError::RadioInit));
    let r = bring_up(false, false, 7);
    assert_eq!(r.err(), Some(BringUpError::RadioInit));
}

#[test]
fn bring_up_aborts_on_radio_controller_failure() {
    let r = bring_up(true, false, 0);
    assert_eq!(r.err(), Some(BringUpError::RadioController));
}

#[test]
fn bring_up_registers_both_tasks_and_the_parked_context() {
    let sched = bring_up(true, true, 0).unwrap();
    assert_eq!(sched.capacity, TASK_CAPACITY);
    assert_eq!(sched.now, 0);
    assert_eq!(sched.tasks.len(), 3);
    match &sched.tasks[0].body {
        TaskBody::InputPoll { btn } => {
            assert_eq!(btn.pull, Pull::Down);
            assert_eq!(btn.level, Level::Low);
        }
        other => panic!("expected the button poller first, found {:?}", other),
    }
    match &sched.tasks[1].body {
        TaskBody::OutputToggle { led } => assert_eq!(led.level, Level::High),
        other => panic!("expected the toggler second, found {:?}", other),
    }
    assert_eq!(sched.tasks[2].body, TaskBody::IdleWait);
    assert_eq!(sched.tasks[0].wake_at, POLL_INTERVAL_MS);
    assert_eq!(sched.tasks[1].wake_at, TOGGLE_INTERVAL_MS);
}

#[test]
fn three_seconds_of_simulated_time() {
    let mut sched = bring_up(true, true, 0).unwrap();
    let events = sched.run_until(3000);

    let toggles = toggles_of(&events);
    assert_eq!(
        toggles,
        vec![(1000, Level::Low), (2000, Level::High), (3000, Level::Low)]
    );

    let polls = polls_of(&events);
    assert_eq!(polls.len(), 30);
    for (k, (at, asserted)) in polls.iter().enumerate() {
        assert_eq!(*at, (k as u64 + 1) * POLL_INTERVAL_MS);
        assert!(!*asserted);
    }

    assert_eq!(events.len(), 33);
}

#[test]
fn intervals_are_lower_bounds() {
    let mut sched = bring_up(true, true, 0).unwrap();
    let events = sched.run_until(10_000);
    let toggles = toggles_of(&events);
    for pair in toggles.windows(2) {
        assert!(pair[1].0 - pair[0].0 >= TOGGLE_INTERVAL_MS);
    }
    let polls = polls_of(&events);
    for pair in polls.windows(2) {
        assert!(pair[1].0 - pair[0].0 >= POLL_INTERVAL_MS);
    }
}

#[test]
fn toggler_is_unaffected_by_the_poller() {
    let mut full = bring_up(true, true, 0).unwrap();
    let full_events = full.run_until(5000);

    let mut solo = Scheduler::new(1, 0);
    solo.spawn(
        TaskBody::OutputToggle { led: OutputPin::new(Level::High) },
        TOGGLE_INTERVAL_MS,
    )
    .unwrap();
    let solo_events = solo.run_until(5000);

    assert_eq!(toggles_of(&full_events), toggles_of(&solo_events));
}

#[test]
fn poller_is_unaffected_by_the_toggler() {
    let mut full = bring_up(true, true, 0).unwrap();
    let full_events = full.run_until(2000);

    let mut solo = Scheduler::new(1, 0);
    solo.spawn(
        TaskBody::InputPoll { btn: InputPin::new(Pull::Down) },
        POLL_INTERVAL_MS,
    )
    .unwrap();
    let solo_events = solo.run_until(2000);

    assert_eq!(polls_of(&full_events), polls_of(&solo_events));
}

#[test]
fn no_task_terminates() {
    let mut sched = bring_up(true, true, 0).unwrap();
    let first = sched.run_until(3000);
    assert_eq!(sched.tasks.len(), 3);
    for task in &sched.tasks {
        assert!(task.wake_at > 3000);
    }
    let second = sched.run_until(6000);
    assert_eq!(sched.tasks.len(), 3);
    assert_eq!(toggles_of(&first).len(), 3);
    assert_eq!(toggles_of(&second).len(), 3);
}

#[test]
fn poller_reports_a_driven_line() {
    let mut sched = Scheduler::new(1, 0);
    let mut btn = InputPin::new(Pull::Down);
    btn.drive(Level::High);
    sched.spawn(TaskBody::InputPoll { btn }, POLL_INTERVAL_MS).unwrap();
    let events = sched.run_until(300);
    let polls = polls_of(&events);
    assert_eq!(polls, vec![(100, true), (200, true), (300, true)]);
}

#[test]
fn idle_task_emits_nothing() {
    let mut sched = Scheduler::new(1, 5);
    sched.spawn(TaskBody::IdleWait, 1000).unwrap();
    let events = sched.run_until(50_000);
    assert!(events.is_empty());
    assert!(sched.tasks[0].wake_at > 50_000);
}
