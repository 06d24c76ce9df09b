use xdevs::gpt::Gpt;
use xdevs::modeling::Kind;
use xdevs::simulation::{JitterExceeded, RootCoordinator, RtClock, RtEvent, Simulator};
use xdevs::time::INFINITY;
use xdevs::Event;

#[test]
fn clock_deadline_follows_the_scale() {
    let clock = RtClock::new(1000, None, 5000);
    assert_eq!(clock.deadline(0), Some(5000));
    assert_eq!(clock.deadline(3), Some(8000));
    assert_eq!(clock.deadline(INFINITY), None);
    assert_eq!(clock.deadline(u64::MAX - 1), None);
}

#[test]
fn clock_arrives_on_time() {
    let mut clock = RtClock::new(1000, Some(50), 5000);
    assert_eq!(clock.arrive(3, 8000), Ok(3));
    assert_eq!((clock.last_vt, clock.last_rt), (3, 8000));
    // a little late is still on time, and the lateness does not add up
    assert_eq!(clock.arrive(4, 9050), Ok(4));
    assert_eq!((clock.last_vt, clock.last_rt), (4, 9000));
    assert_eq!(clock.deadline(5), Some(10000));
}

#[test]
fn clock_reports_too_much_jitter() {
    let mut clock = RtClock::new(1000, Some(50), 5000);
    assert_eq!(clock.arrive(3, 8051), Err(JitterExceeded { jitter: 51 }));
    assert_eq!((clock.last_vt, clock.last_rt), (0, 5000));
    let mut lenient = RtClock::new(1000, None, 5000);
    assert_eq!(lenient.arrive(3, 800000), Ok(3));
}

#[test]
fn clock_arrives_early_at_the_time_of_the_reading() {
    let mut clock = RtClock::new(1000, Some(50), 5000);
    assert_eq!(clock.arrive(3, 6500), Ok(1));
    assert_eq!((clock.last_vt, clock.last_rt), (1, 6500));
    // the tick of the reading is due at the reading, a later tick when it begins
    assert_eq!(clock.deadline(1), Some(6500));
    assert_eq!(clock.deadline(3), Some(8000));
    assert_eq!(clock.arrive(INFINITY, 9999), Ok(4));
    assert_eq!(clock.arrive(4, 9999), Ok(4));
}

#[test]
fn awaited_time_is_returned_exactly_at_the_deadline() {
    let mut clock = RtClock::new(1000, Some(50), 5000);
    assert_eq!(clock.arrive(3, 6500), Ok(1));
    assert_eq!(clock.arrive(3, 7999), Ok(2));
    assert_eq!((clock.last_vt, clock.last_rt), (2, 7999));
    assert_eq!(clock.deadline(3), Some(8000));
    assert_eq!(clock.arrive(3, 8000), Ok(3));
    assert_eq!((clock.last_vt, clock.last_rt), (3, 8000));
    // readings inside ticks do not move later deadlines
    assert_eq!(clock.arrive(9, 8999), Ok(3));
    assert_eq!(clock.arrive(9, 14051), Err(JitterExceeded { jitter: 51 }));
    assert_eq!(clock.arrive(9, 14050), Ok(9));
    assert_eq!((clock.last_vt, clock.last_rt), (9, 14000));
}

#[test]
fn deadline_is_cut_at_the_end_of_the_simulation() {
    let gpt = Gpt::new("gpt", 3, 1, 50);
    let mut root = RootCoordinator::new(gpt.coupled);
    root.model.start(0);
    assert_eq!(root.rt_deadline(60), 0);
    root.step(60);
    assert_eq!(root.rt_deadline(60), 1);
    assert_eq!(root.rt_deadline(1), 1);
    assert!(root.simulate(INFINITY, 1000));
    assert_eq!(root.rt_deadline(60), 60);
}

#[test]
fn spurious_wakeup_changes_nothing() {
    let gpt = Gpt::new("gpt", 3, 1, 50);
    let mut root = RootCoordinator::new(gpt.coupled);
    root.model.start(0);
    assert_eq!(root.rt_event(0), RtEvent::Internal);
    assert_eq!(root.rt_transition(0), 1);
    // the waiter comes back too early, with nothing in its hands
    assert_eq!(root.rt_event(0), RtEvent::Spurious);
    assert_eq!(root.get_model().get_t_next(), 1);
    assert_eq!(root.get_model().get_t_last(), 0);
    assert_eq!(root.rt_deadline(60), 1);
}

#[test]
fn external_event_before_the_deadline() {
    let gpt = Gpt::new("gpt", 3, 1, 50);
    let mut coupled = gpt.coupled;
    coupled.add_in_port("input", Kind::Count);
    let mut root = RootCoordinator::new(coupled);
    root.model.start(0);
    assert_eq!(root.rt_event(0), RtEvent::Internal);
    assert_eq!(root.rt_transition(0), 1);
    assert_eq!(root.model.inject(&Event::new("input", "5")), Ok(()));
    assert_eq!(root.rt_event(0), RtEvent::External);
    assert_eq!(root.rt_transition(0), 1);
    assert!(root.get_model().get_component().is_input_empty());
}

#[test]
fn real_time_trace_matches_virtual_time_trace() {
    let gpt = Gpt::new("gpt", 3, 1, 50);
    let mut root = RootCoordinator::new(gpt.coupled);
    let scale = 1_000_000_000u64;
    let mut clock = RtClock::new(scale, None, 0);
    let t_stop = 60;
    let mut times = Vec::new();
    let mut t = 0;
    root.model.start(t);
    while t < t_stop {
        let t_until = root.rt_deadline(t_stop);
        // a waiter that sleeps exactly until the deadline
        let now = clock.deadline(t_until).unwrap();
        t = clock.arrive(t_until, now).unwrap();
        match root.rt_event(t) {
            RtEvent::Spurious => continue,
            RtEvent::Internal => times.push(t),
            RtEvent::External => {}
        }
        root.rt_transition(t);
    }
    root.model.stop(t_stop);
    let mut expected = Vec::new();
    for k in 0..17u64 {
        expected.push(3 * k);
        expected.push(3 * k + 1);
    }
    expected.push(50);
    assert_eq!(times, expected);
    assert_eq!(clock.last_rt, 60 * scale);
}
