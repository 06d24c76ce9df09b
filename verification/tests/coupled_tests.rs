use xdevs::devstone::{atomic, seeder, DEVStoneModel};
use xdevs::modeling::coupled::TopologyError;
use xdevs::modeling::{Coupled, Coupling, Endpoint, Kind, Subcomponent, Value};
use xdevs::simulation::Simulator;
use xdevs::time::INFINITY;

fn relay() -> Coupled<DEVStoneModel> {
    let mut c: Coupled<DEVStoneModel> = Coupled::new("relay");
    c.add_in_port("input", Kind::Count);
    c.add_in_port("flag", Kind::Bool);
    c.add_out_port("output", Kind::Count);
    c.add_component(atomic("a", 0, 0));
    c.add_component(atomic("b", 0, 0));
    c
}

fn wired() -> Coupled<DEVStoneModel> {
    let mut c = relay();
    c.add_eic("input", "a", "input");
    c.add_ic("a", "output", "b", "input");
    c.add_eoc("b", "output", "output");
    c.add_eoc("a", "output", "output");
    c
}

fn counts(c: &Coupled<DEVStoneModel>, child: usize) -> (usize, usize, usize) {
    match &c.components[child] {
        Subcomponent::Atomic(a) => match &a.model {
            DEVStoneModel::Atomic(m) => (m.n_internals, m.n_externals, m.n_events),
            _ => panic!("not a counting model"),
        },
        _ => panic!("not atomic"),
    }
}

#[test]
fn new_coupled_is_empty() {
    let c: Coupled<DEVStoneModel> = Coupled::new("c");
    assert_eq!(c.get_name(), "c");
    assert_eq!(c.n_components(), 0);
    assert_eq!(c.n_eics(), 0);
    assert_eq!(c.n_ics(), 0);
    assert_eq!(c.n_eocs(), 0);
    assert_eq!(c.get_t_last(), 0);
    assert_eq!(c.get_t_next(), INFINITY);
}

#[test]
fn components_are_found_by_name() {
    let c = relay();
    assert_eq!(c.n_components(), 2);
    assert_eq!(c.find_component("a"), Some(0));
    assert_eq!(c.find_component("b"), Some(1));
    assert_eq!(c.find_component("c"), None);
}

#[test]
fn couplings_are_stored_destination_first() {
    let c = wired();
    assert_eq!((c.n_eics(), c.n_ics(), c.n_eocs()), (1, 1, 2));
    assert_eq!(
        c.eics[0],
        Coupling {
            to: Endpoint { component: Some(0), port: 0 },
            from: Endpoint { component: None, port: 0 },
        }
    );
    assert_eq!(
        c.ics[0],
        Coupling {
            to: Endpoint { component: Some(1), port: 0 },
            from: Endpoint { component: Some(0), port: 0 },
        }
    );
    assert_eq!(
        c.eocs[0],
        Coupling {
            to: Endpoint { component: None, port: 0 },
            from: Endpoint { component: Some(1), port: 0 },
        }
    );
}

#[test]
fn try_add_eic_tells_why_not() {
    let mut c = relay();
    assert_eq!(c.try_add_eic("nowhere", "a", "input"), Err(TopologyError::UnknownPort));
    assert_eq!(c.try_add_eic("input", "z", "input"), Err(TopologyError::UnknownComponent));
    assert_eq!(c.try_add_eic("input", "a", "nowhere"), Err(TopologyError::UnknownPort));
    assert_eq!(c.try_add_eic("input", "a", "output"), Err(TopologyError::UnknownPort));
    assert_eq!(c.try_add_eic("flag", "a", "input"), Err(TopologyError::IncompatiblePorts));
    assert_eq!(c.n_eics(), 0);
    assert_eq!(c.try_add_eic("input", "a", "input"), Ok(()));
    assert_eq!(c.try_add_eic("input", "a", "input"), Err(TopologyError::DuplicateCoupling));
    assert_eq!(c.try_add_eic("input", "b", "input"), Ok(()));
    assert_eq!(c.n_eics(), 2);
}

#[test]
fn try_add_ic_tells_why_not() {
    let mut c = relay();
    assert_eq!(c.try_add_ic("z", "output", "b", "input"), Err(TopologyError::UnknownComponent));
    assert_eq!(c.try_add_ic("a", "nowhere", "b", "input"), Err(TopologyError::UnknownPort));
    assert_eq!(c.try_add_ic("a", "output", "z", "input"), Err(TopologyError::UnknownComponent));
    assert_eq!(c.try_add_ic("a", "output", "b", "nowhere"), Err(TopologyError::UnknownPort));
    assert_eq!(c.try_add_ic("a", "output", "b", "input"), Ok(()));
    assert_eq!(c.try_add_ic("a", "output", "b", "input"), Err(TopologyError::DuplicateCoupling));
    // a model may send to itself
    assert_eq!(c.try_add_ic("a", "output", "a", "input"), Ok(()));
    assert_eq!(c.n_ics(), 2);
}

#[test]
fn try_add_eoc_tells_why_not() {
    let mut c = relay();
    c.add_out_port("flags", Kind::Bool);
    assert_eq!(c.try_add_eoc("z", "output", "output"), Err(TopologyError::UnknownComponent));
    assert_eq!(c.try_add_eoc("a", "nowhere", "output"), Err(TopologyError::UnknownPort));
    assert_eq!(c.try_add_eoc("a", "output", "nowhere"), Err(TopologyError::UnknownPort));
    assert_eq!(c.try_add_eoc("a", "output", "flags"), Err(TopologyError::IncompatiblePorts));
    assert_eq!(c.try_add_eoc("a", "output", "output"), Ok(()));
    assert_eq!(c.try_add_eoc("a", "output", "output"), Err(TopologyError::DuplicateCoupling));
    assert_eq!(c.n_eocs(), 1);
}

#[test]
fn connect_by_position_matches_connect_by_name() {
    let mut by_name = relay();
    by_name.add_ic("a", "output", "b", "input");
    let mut by_position = relay();
    by_position.connect_ic(Coupling {
        to: Endpoint { component: Some(1), port: 0 },
        from: Endpoint { component: Some(0), port: 0 },
    });
    assert_eq!(by_name.ics, by_position.ics);
}

#[test]
fn start_schedules_at_the_earliest_subcomponent() {
    let mut c: Coupled<DEVStoneModel> = Coupled::new("c");
    c.add_component(atomic("a", 0, 0));
    assert_eq!(c.start(3), INFINITY);
    assert_eq!(c.get_t_last(), 3);
    c.add_component(seeder("s"));
    assert_eq!(c.start(3), 3);
    assert_eq!(c.get_t_next(), 3);
    assert_eq!(c.components[0].get_t_next(), INFINITY);
    assert_eq!(c.components[1].get_t_next(), 3);
    let mut empty: Coupled<DEVStoneModel> = Coupled::new("empty");
    assert_eq!(empty.start(7), INFINITY);
}

#[test]
fn collection_before_the_next_event_changes_nothing() {
    let mut c: Coupled<DEVStoneModel> = Coupled::new("c");
    c.add_out_port("output", Kind::Count);
    c.add_component(seeder("s"));
    c.add_eoc("s", "output", "output");
    assert_eq!(c.start(5), 5);
    c.collection(4);
    assert!(c.get_component().is_output_empty());
    assert!(c.components[0].get_component().is_output_empty());
    c.collection(5);
    assert_eq!(c.component.get_model().out_port(0).get_values(), &vec![Value::Count(0)]);
}

#[test]
fn messages_travel_along_the_couplings() {
    let mut c = wired();
    assert_eq!(c.start(0), INFINITY);
    // input at the coupled model reaches `a` in the transition
    c.component.get_model_mut().receive(0, &vec![Value::Count(7), Value::Count(8)]);
    assert_eq!(c.transition(2), 2);
    assert!(c.get_component().is_input_empty());
    assert_eq!(counts(&c, 0), (0, 1, 2));
    assert_eq!(counts(&c, 1), (0, 0, 0));
    assert_eq!(c.get_t_last(), 2);
    // `a` answers at once: its output goes to `b` and to the output of the model
    c.collection(2);
    assert_eq!(c.component.get_model().out_port(0).get_values(), &vec![Value::Count(2)]);
    assert_eq!(
        c.components[1].get_component().get_model().in_port(0).get_values(),
        &vec![Value::Count(2)]
    );
    assert_eq!(c.transition(2), 2);
    assert!(c.get_component().is_output_empty());
    assert_eq!(counts(&c, 0), (1, 1, 2));
    assert_eq!(counts(&c, 1), (0, 1, 1));
    // then `b` answers
    c.collection(2);
    assert_eq!(c.component.get_model().out_port(0).get_values(), &vec![Value::Count(1)]);
    assert_eq!(c.transition(2), INFINITY);
    assert_eq!(counts(&c, 1), (1, 1, 1));
    assert!(c.get_component().is_output_empty());
    assert!(c.components[0].get_component().is_input_empty());
    assert!(c.components[1].get_component().is_input_empty());
    c.stop(9);
    assert_eq!(c.get_t_last(), 9);
    assert_eq!(c.components[0].get_t_last(), 9);
}

#[test]
fn transition_without_input_or_event_changes_nothing() {
    let mut c = wired();
    assert_eq!(c.start(1), INFINITY);
    assert_eq!(c.transition(4), INFINITY);
    assert_eq!(c.get_t_last(), 1);
    assert_eq!(c.components[0].get_t_last(), 1);
    assert_eq!(counts(&c, 0), (0, 0, 0));
}

#[test]
fn transition_keeps_time_moving_forward() {
    let mut c = wired();
    c.start(0);
    let mut t_last = c.get_t_last();
    for t in [1u64, 1, 3, 8] {
        c.component.get_model_mut().receive(0, &vec![Value::Count(1)]);
        let t_next = c.transition(t);
        assert!(c.get_t_last() >= t_last);
        assert!(t_next >= c.get_t_last());
        assert_eq!(t_next, c.components.iter().map(|x| x.get_t_next()).min().unwrap());
        t_last = c.get_t_last();
        c.collection(t);
        c.transition(t);
        c.collection(t);
        c.transition(t);
    }
}

#[test]
fn set_sim_t_and_clear_on_any_simulator() {
    let mut c = wired();
    c.set_sim_t(3, 4);
    assert_eq!((c.get_t_last(), c.get_t_next()), (3, 4));
    c.component.get_model_mut().receive(0, &vec![Value::Count(1)]);
    c.clear_input();
    assert!(c.get_component().is_input_empty());
    let mut node = Subcomponent::Coupled(c);
    node.set_sim_t(5, 6);
    assert_eq!((node.get_t_last(), node.get_t_next()), (5, 6));
    assert_eq!(node.get_name(), "relay");
    node.clear_output();
    assert!(node.get_component().is_output_empty());
}

#[test]
fn clear_empties_both_directions() {
    let mut c = wired();
    c.component.get_model_mut().receive(0, &vec![Value::Count(1)]);
    c.component.get_model_mut().emit(0, &vec![Value::Count(2)]);
    c.clear();
    assert!(c.get_component().is_input_empty());
    assert!(c.get_component().is_output_empty());
}
