use xdevs::devstone::{probe_node, DEVStoneModel, TestProbe, HI, HO};
use xdevs::gpt::Gpt;
use xdevs::modeling::{Coupled, Subcomponent};
use xdevs::simulation::parallel::Phase;
use xdevs::simulation::{ParallelCoupled, RootCoordinator, Simulator};
use xdevs::time::INFINITY;

fn as_tuple(x: TestProbe) -> (usize, usize, usize, usize, usize, usize, usize) {
    (x.n_atomics, x.n_eics, x.n_ics, x.n_eocs, x.n_internals, x.n_externals, x.n_events)
}

fn trace<T: Simulator>(mut model: T) -> (Vec<u64>, T) {
    let mut times = Vec::new();
    let mut t_next = model.start(0);
    while t_next < INFINITY {
        times.push(t_next);
        model.collection(t_next);
        t_next = model.transition(t_next);
    }
    model.stop(t_next);
    (times, model)
}

fn sequential(coupled: Coupled<DEVStoneModel>) -> (Vec<u64>, TestProbe) {
    let (times, model) = trace(coupled);
    (times, probe_node(&model.components[1]))
}

fn parallel(coupled: Coupled<DEVStoneModel>) -> (Vec<u64>, TestProbe) {
    let (times, model) = trace(ParallelCoupled::new(coupled));
    (times, probe_node(&model.coupled.components[1]))
}

#[test]
fn parallel_hi_equals_sequential_hi() {
    let (times_s, probe_s) = sequential(HI::create(5, 3, 0, 0));
    let (times_p, probe_p) = parallel(HI::create(5, 3, 0, 0));
    assert_eq!(times_s, times_p);
    assert_eq!(as_tuple(probe_s), as_tuple(probe_p));
    assert_eq!(probe_p.n_internals, 21);
}

#[test]
fn parallel_ho_equals_sequential_ho() {
    let (times_s, probe_s) = sequential(HO::create(6, 4, 0, 0));
    let (times_p, probe_p) = parallel(HO::create(6, 4, 0, 0));
    assert_eq!(times_s, times_p);
    assert_eq!(as_tuple(probe_s), as_tuple(probe_p));
}

#[test]
fn parallel_gpt_equals_sequential_gpt() {
    let (times_s, _) = trace(Gpt::new("gpt", 3, 1, 50).coupled);
    let (times_p, model) = trace(ParallelCoupled::new(Gpt::new("gpt", 3, 1, 50).coupled));
    assert_eq!(times_s, times_p);
    assert_eq!(times_p.len(), 35);
    assert_eq!(model.get_t_next(), INFINITY);
}

#[test]
fn parallel_root_coordinator_finishes() {
    let mut root = RootCoordinator::new(ParallelCoupled::new(HI::create(4, 4, 0, 0)));
    assert!(root.simulate(INFINITY, usize::MAX));
    let x = probe_node(&root.get_model().coupled.components[1]);
    assert_eq!(x.n_atomics, 10);
    assert_eq!(x.n_internals, 3 * 4 / 2 * 3 + 1);
}

#[test]
fn par_run_runs_the_phase_named() {
    let mut node = Subcomponent::Coupled(HI::create(3, 2, 0, 0));
    node.par_run(Phase::Start, 4);
    assert_eq!(node.get_t_last(), 4);
    assert_eq!(node.get_t_next(), 4);
    node.par_run(Phase::Collection, 4);
    node.par_run(Phase::Transition, 4);
    assert_eq!(node.get_t_next(), 4);
    node.par_run(Phase::Stop, 9);
    assert_eq!(node.get_t_last(), 9);
    assert_eq!(node.get_t_next(), INFINITY);
}
