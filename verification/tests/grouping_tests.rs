use xdevs::devstone::{probe_node, DEVStoneModel, HOmod};
use xdevs::modeling::{Coupled, Coupling, Endpoint, Subcomponent};
use xdevs::simulation::grouping::group_by_destination;
use xdevs::simulation::{RootCoordinator, Simulator};
use xdevs::time::INFINITY;

fn coupling(from: usize, to: usize, port: usize) -> Coupling {
    Coupling {
        to: Endpoint { component: Some(to), port },
        from: Endpoint { component: Some(from), port: 0 },
    }
}

#[test]
fn couplings_are_grouped_in_order_of_first_destination() {
    let table = vec![
        coupling(1, 5, 0),
        coupling(2, 6, 0),
        coupling(3, 5, 0),
        coupling(4, 5, 1),
        coupling(7, 6, 0),
        coupling(8, 5, 0),
    ];
    assert_eq!(
        group_by_destination(&table),
        vec![
            coupling(1, 5, 0),
            coupling(3, 5, 0),
            coupling(8, 5, 0),
            coupling(2, 6, 0),
            coupling(7, 6, 0),
            coupling(4, 5, 1),
        ]
    );
    assert_eq!(group_by_destination(&Vec::new()), Vec::new());
}

fn group_all(coupled: &mut Coupled<DEVStoneModel>) {
    coupled.group_couplings();
    for child in coupled.components.iter_mut() {
        if let Subcomponent::Coupled(c) = child {
            group_all(c);
        }
    }
}

fn trace(coupled: Coupled<DEVStoneModel>) -> (Vec<u64>, (usize, usize, usize)) {
    let mut root = RootCoordinator::new(coupled);
    let mut times = Vec::new();
    let mut t_next = root.model.start(0);
    while t_next < INFINITY {
        times.push(t_next);
        root.model.collection(t_next);
        t_next = root.model.transition(t_next);
    }
    let x = probe_node(&root.model.components[1]);
    (times, (x.n_internals, x.n_externals, x.n_events))
}

#[test]
fn grouping_does_not_change_a_simulation() {
    let plain = HOmod::create(4, 3, 0, 0);
    let mut grouped = HOmod::create(4, 3, 0, 0);
    group_all(&mut grouped);
    assert_eq!(grouped.n_ics(), plain.n_ics());
    let (level_plain, level_grouped) = match (&plain.components[1], &grouped.components[1]) {
        (Subcomponent::Coupled(a), Subcomponent::Coupled(b)) => (a, b),
        _ => panic!("the second subcomponent is the outermost level"),
    };
    assert_eq!(level_plain.n_ics(), level_grouped.n_ics());
    assert_ne!(level_plain.ics, level_grouped.ics);
    assert_eq!(trace(plain), trace(grouped));
}
