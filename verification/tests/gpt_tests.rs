use xdevs::gpt::{Efp, Gpt, GptModel};
use xdevs::modeling::{Coupled, Subcomponent};
use xdevs::simulation::{RootCoordinator, Simulator};
use xdevs::time::INFINITY;

fn transducer_counts(node: &Subcomponent<GptModel>) -> Option<(usize, usize)> {
    match node {
        Subcomponent::Atomic(a) => match &a.model {
            GptModel::Transducer(t) => Some((t.arrived, t.solved)),
            _ => None,
        },
        Subcomponent::Coupled(c) => c.components.iter().find_map(transducer_counts),
    }
}

fn generator_count(node: &Subcomponent<GptModel>) -> Option<usize> {
    match node {
        Subcomponent::Atomic(a) => match &a.model {
            GptModel::Generator(g) => Some(g.count),
            _ => None,
        },
        Subcomponent::Coupled(c) => c.components.iter().find_map(generator_count),
    }
}

fn event_times(coupled: Coupled<GptModel>, t_stop: u64) -> (Vec<u64>, Coupled<GptModel>) {
    let mut root = RootCoordinator::new(coupled);
    let mut times = Vec::new();
    let mut t_next = root.model.start(0);
    while t_next < t_stop {
        times.push(t_next);
        root.model.collection(t_next);
        t_next = root.model.transition(t_next);
    }
    root.model.stop(t_next);
    (times, root.model)
}

fn expected_times() -> Vec<u64> {
    let mut times = Vec::new();
    for k in 0..17u64 {
        times.push(3 * k);
        times.push(3 * k + 1);
    }
    times.push(50);
    times
}

#[test]
fn gpt_trace_with_period_3_time_1_observation_50() {
    let gpt = Gpt::new("gpt", 3, 1, 50);
    let (times, model) = event_times(gpt.coupled, INFINITY);
    assert_eq!(times, expected_times());
    assert_eq!(model.get_t_next(), INFINITY);
    let root = Subcomponent::Coupled(model);
    assert_eq!(transducer_counts(&root), Some((17, 17)));
    assert_eq!(generator_count(&root), Some(17));
}

#[test]
fn efp_trace_matches_gpt_trace() {
    let efp = Efp::new("efp", 3, 1, 50);
    let (times, model) = event_times(efp.coupled, INFINITY);
    assert_eq!(times, expected_times());
    assert_eq!(model.get_t_next(), INFINITY);
    let root = Subcomponent::Coupled(model);
    assert_eq!(transducer_counts(&root), Some((17, 17)));
    assert_eq!(generator_count(&root), Some(17));
}

#[test]
fn gpt_simulate_reaches_the_end() {
    let gpt = Gpt::new("gpt", 3, 1, 50);
    let mut root = RootCoordinator::new(gpt.coupled);
    assert!(root.simulate(INFINITY, 1000));
    assert_eq!(root.get_model().get_t_next(), INFINITY);
    assert_eq!(root.get_model().get_t_last(), INFINITY);
    assert_eq!(root.get_model().n_components(), 3);
    assert_eq!(root.get_model().n_ics(), 4);
    assert_eq!(root.get_model().n_eics(), 0);
    assert_eq!(root.get_model().n_eocs(), 0);
}

#[test]
fn gpt_simulate_gives_up_after_max_steps() {
    let gpt = Gpt::new("gpt", 3, 1, 50);
    let mut root = RootCoordinator::new(gpt.coupled);
    assert!(!root.simulate(INFINITY, 10));
    assert_eq!(root.get_model().get_t_next(), 15);
    assert!(root.resume(INFINITY, 1000));
    assert_eq!(root.get_model().get_t_next(), INFINITY);
}

#[test]
fn gpt_stops_before_t_stop() {
    let gpt = Gpt::new("gpt", 3, 1, 50);
    let mut root = RootCoordinator::new(gpt.coupled);
    assert!(root.simulate(10, 1000));
    assert_eq!(root.get_model().get_t_last(), 10);
    assert_eq!(root.get_model().get_t_next(), INFINITY);
}

#[test]
fn simulate_time_does_not_stop_the_model() {
    let gpt = Gpt::new("gpt", 3, 1, 50);
    let mut root = RootCoordinator::new(gpt.coupled);
    assert!(root.simulate_time(10, 1000));
    assert_eq!(root.get_model().get_t_last(), 9);
    assert_eq!(root.get_model().get_t_next(), 10);
    assert!(!root.step(10));
    assert!(root.step(11));
    assert_eq!(root.get_model().get_t_next(), 12);
}
