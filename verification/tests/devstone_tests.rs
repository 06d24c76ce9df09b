use xdevs::devstone::{probe_node, HOmod, TestProbe, HI, HO, LI};
use xdevs::modeling::{Coupled, Subcomponent};
use xdevs::devstone::DEVStoneModel;
use xdevs::simulation::{RootCoordinator, Simulator};
use xdevs::time::INFINITY;

fn run(coupled: Coupled<DEVStoneModel>) -> TestProbe {
    let mut simulator = RootCoordinator::new(coupled);
    assert!(simulator.simulate(INFINITY, usize::MAX));
    assert_eq!(simulator.get_model().get_t_next(), INFINITY);
    probe_node(&simulator.get_model().components[1])
}

fn expected_atomics(width: usize, depth: usize) -> usize {
    (width - 1) * (depth - 1) + 1
}

fn expected_eics(width: usize, depth: usize) -> usize {
    width * (depth - 1) + 1
}

fn expected_ics(width: usize, depth: usize) -> usize {
    match width > 2 {
        true => (width - 2) * (depth - 1),
        false => 0,
    }
}

fn expected_internals(width: usize, depth: usize) -> usize {
    (width - 1) * width / 2 * (depth - 1) + 1
}

#[test]
fn test_li() {
    for width in (1..50).step_by(5) {
        for depth in (1..50).step_by(5) {
            let coupled = LI::create(width, depth, 0, 0);
            let x = run(coupled);
            assert_eq!(expected_atomics(width, depth), x.n_atomics);
            assert_eq!(expected_eics(width, depth), x.n_eics);
            assert_eq!(0, x.n_ics);
            assert_eq!(depth, x.n_eocs);
            assert_eq!(expected_atomics(width, depth), x.n_internals);
            assert_eq!(expected_atomics(width, depth), x.n_externals);
            assert_eq!(expected_atomics(width, depth), x.n_events);
        }
    }
}

#[test]
fn test_hi() {
    for width in (1..50).step_by(5) {
        for depth in (1..50).step_by(5) {
            let coupled = HI::create(width, depth, 0, 0);
            let x = run(coupled);
            assert_eq!(expected_atomics(width, depth), x.n_atomics);
            assert_eq!(expected_eics(width, depth), x.n_eics);
            assert_eq!(expected_ics(width, depth), x.n_ics);
            assert_eq!(depth, x.n_eocs);
            assert_eq!(expected_internals(width, depth), x.n_internals);
            assert_eq!(expected_internals(width, depth), x.n_externals);
            assert_eq!(expected_internals(width, depth), x.n_events);
        }
    }
}

#[test]
fn li_width_5_depth_3() {
    let x = run(LI::create(5, 3, 0, 0));
    assert_eq!(x.n_atomics, 9);
    assert_eq!(x.n_eics, 11);
    assert_eq!(x.n_ics, 0);
    assert_eq!(x.n_eocs, 3);
    assert_eq!(x.n_internals, 9);
    assert_eq!(x.n_externals, 9);
}

#[test]
fn hi_width_5_depth_3() {
    let x = run(HI::create(5, 3, 0, 0));
    assert_eq!(x.n_atomics, 9);
    assert_eq!(x.n_eics, 11);
    assert_eq!(x.n_ics, 6);
    assert_eq!(x.n_eocs, 3);
    assert_eq!(x.n_internals, 21);
    assert_eq!(x.n_externals, 21);
}

#[test]
fn li_before_simulation_has_counted_nothing() {
    let coupled = LI::create(3, 2, 0, 0);
    assert_eq!(coupled.n_components(), 2);
    assert_eq!(coupled.n_ics(), 1);
    let x = probe_node(&coupled.components[1]);
    assert_eq!(x.n_atomics, 3);
    assert_eq!(x.n_internals, 0);
    assert_eq!(x.n_externals, 0);
    assert_eq!(x.n_events, 0);
    let top = probe_node(&Subcomponent::Coupled(coupled));
    assert_eq!(top.n_ics, 1);
}

fn expected_ho_eics(width: usize, depth: usize) -> usize {
    (width + 1) * (depth - 1) + 1
}

fn expected_ho_eocs(width: usize, depth: usize) -> usize {
    width * (depth - 1) + 1
}

#[test]
fn test_ho() {
    for width in (1..50).step_by(5) {
        for depth in (1..50).step_by(5) {
            let coupled = HO::create(width, depth, 0, 0);
            let before = probe_node(&coupled.components[1]);
            assert_eq!(expected_atomics(width, depth), before.n_atomics);
            assert_eq!(expected_ho_eics(width, depth), before.n_eics);
            assert_eq!(expected_ics(width, depth), before.n_ics);
            assert_eq!(expected_ho_eocs(width, depth), before.n_eocs);
            let x = run(coupled);
            assert_eq!(expected_internals(width, depth), x.n_internals);
            assert_eq!(expected_internals(width, depth), x.n_externals);
            assert_eq!(expected_internals(width, depth), x.n_events);
        }
    }
}

fn expected_homod_atomics(width: usize, depth: usize) -> usize {
    (width - 1 + (width - 1) * width / 2) * (depth - 1) + 1
}

fn expected_homod_eics(width: usize, depth: usize) -> usize {
    (2 * (width - 1) + 1) * (depth - 1) + 1
}

fn expected_homod_ics(width: usize, depth: usize) -> usize {
    ((width - 1) * (width - 1) + (width - 1) * width / 2) * (depth - 1)
}

fn expected_homod_internals(width: usize, depth: usize) -> usize {
    let mut n = 1;
    for d in 1..depth {
        n += (1 + (d - 1) * (width - 1)) * (width - 1) * width / 2
            + (width - 1) * (width + (d - 1) * (width - 1));
    }
    n
}

fn expected_homod_events(width: usize, depth: usize) -> usize {
    let mut n = 1;
    if width > 1 && depth > 1 {
        n += 2 * (width - 1);
        let mut aux = 0;
        for i in 2..depth {
            aux += 1 + (i - 1) * (width - 1);
        }
        n += aux * 2 * (width - 1) * (width - 1);
        n += (aux + 1) * ((width - 1) * (width - 1) + (width - 2) * (width - 1) / 2);
    }
    n
}

#[test]
fn test_homod() {
    for width in (1..10).step_by(1) {
        for depth in (1..10).step_by(1) {
            let coupled = HOmod::create(width, depth, 0, 0);
            let before = probe_node(&coupled.components[1]);
            assert_eq!(expected_homod_atomics(width, depth), before.n_atomics);
            assert_eq!(expected_homod_eics(width, depth), before.n_eics);
            assert_eq!(expected_homod_ics(width, depth), before.n_ics);
            assert_eq!(depth, before.n_eocs);
            let x = run(coupled);
            assert_eq!(expected_homod_internals(width, depth), x.n_internals);
            assert_eq!(expected_homod_internals(width, depth), x.n_externals);
            assert_eq!(expected_homod_events(width, depth), x.n_events);
        }
    }
}

#[test]
fn homod_names_its_rows() {
    let coupled = HOmod::create(3, 2, 0, 0);
    match &coupled.components[1] {
        xdevs::modeling::Subcomponent::Coupled(level) => {
            assert_eq!(level.get_name(), "coupled_2");
            let names: Vec<String> =
                level.components.iter().map(|c| c.get_name().to_string()).collect();
            assert_eq!(
                names,
                vec!["coupled_1", "atomic(1,1", "atomic(1,2", "atomic(2,1", "atomic(2,2", "atomic(3,1"]
            );
        }
        _ => panic!("the second subcomponent is the outermost level"),
    }
}

#[test]
fn delays_keep_the_processor_busy() {
    let started = cpu_time::ThreadTime::now();
    let x = run(LI::create(3, 2, 20, 30));
    assert_eq!((x.n_internals, x.n_externals), (3, 3));
    // three internal and three external transitions, each with its delay
    assert!(started.elapsed() >= std::time::Duration::from_millis(3 * 20 + 3 * 30));
    let started = cpu_time::ThreadTime::now();
    let x = run(LI::create(3, 2, 0, 0));
    assert_eq!((x.n_internals, x.n_externals), (3, 3));
    assert!(started.elapsed() < std::time::Duration::from_millis(3 * 20 + 3 * 30));
}

#[test]
fn delays_of_zero_milliseconds_are_none() {
    let coupled = LI::create(1, 1, 0, 7);
    match &coupled.components[1] {
        xdevs::modeling::Subcomponent::Coupled(level) => match &level.components[0] {
            xdevs::modeling::Subcomponent::Atomic(a) => match &a.model {
                DEVStoneModel::Atomic(m) => {
                    assert_eq!(m.int_delay, None);
                    assert_eq!(m.ext_delay, Some(7));
                }
                _ => panic!("the inner model counts"),
            },
            _ => panic!("the innermost level holds an atomic model"),
        },
        _ => panic!("the second subcomponent is the outermost level"),
    }
}

#[test]
fn homod_rows_feed_the_rows_before_them() {
    let coupled = HOmod::create(3, 2, 0, 0);
    match &coupled.components[1] {
        xdevs::modeling::Subcomponent::Coupled(level) => {
            let ics: Vec<(Option<usize>, usize, Option<usize>, usize)> = level
                .ics
                .iter()
                .map(|c| (c.from.component, c.from.port, c.to.component, c.to.port))
                .collect();
            assert_eq!(
                ics,
                vec![
                    (Some(1), 0, Some(0), 1),
                    (Some(2), 0, Some(0), 1),
                    (Some(3), 0, Some(1), 0),
                    (Some(3), 0, Some(2), 0),
                    (Some(4), 0, Some(1), 0),
                    (Some(4), 0, Some(2), 0),
                    (Some(5), 0, Some(4), 0),
                ]
            );
            let eics: Vec<(usize, Option<usize>, usize)> =
                level.eics.iter().map(|c| (c.from.port, c.to.component, c.to.port)).collect();
            assert_eq!(
                eics,
                vec![
                    (0, Some(0), 0),
                    (1, Some(1), 0),
                    (1, Some(2), 0),
                    (1, Some(3), 0),
                    (1, Some(5), 0),
                ]
            );
        }
        _ => panic!("the second subcomponent is the outermost level"),
    }
}
