use xdevs::modeling::{Component, Kind, Model, Port, PortVal, Value};
use xdevs::time::INFINITY;

#[test]
fn model_test_component() {
    let mut a: Model<Value> = Model::new("component_a");
    let in_i32 = a.add_in_port("i32", Kind::Int);
    let out_i32 = a.add_out_port("i32", Kind::Int);
    let out_f64 = a.add_out_port("f64", Kind::Int);

    assert_eq!("component_a", a.get_name());
    assert_eq!(1, a.n_in_ports());
    assert_eq!(2, a.n_out_ports());
    assert!(a.is_input_empty());
    assert!(a.is_output_empty());

    out_i32.add_value(&mut a, Value::Int(1));
    out_f64.add_values(&mut a, &vec![Value::Int(1), Value::Int(2)]);
    assert!(a.is_input_empty());
    assert!(!a.is_output_empty());
    {
        let port = a.get_out_port("f64");
        assert!(!a.out_port(port.index).is_empty());
        assert_eq!(a.out_port(port.index).get_values(), &vec![Value::Int(1), Value::Int(2)]);
    }

    a.clear_out_ports();
    assert!(a.is_input_empty());
    assert!(a.is_output_empty());

    a.receive(in_i32.index, &vec![Value::Int(1)]);
    assert!(!a.is_input_empty());
    assert!(a.is_output_empty());
    {
        let port = a.get_in_port("i32");
        assert!(!port.is_empty(&a));
        assert_eq!(port.get_values(&a), &vec![Value::Int(1)]);
    }

    a.clear_in_ports();
    assert!(a.is_input_empty());
    assert!(a.is_output_empty());
}

#[test]
fn dynamic_test_component() {
    let mut a: Component<Value> = Component::new("component_a");
    let in_i32 = a.add_in_port("i32", Kind::Int);
    let out_i32 = a.add_out_port("i32", Kind::Int);
    let out_f64 = a.add_out_port("f64", Kind::Count);

    assert_eq!("component_a", a.get_name());
    assert_eq!(1, a.get_model().n_in_ports());
    assert_eq!(2, a.get_model().n_out_ports());
    assert!(a.is_input_empty());
    assert!(a.is_output_empty());

    out_i32.add_value(a.get_model_mut(), Value::Int(1));
    out_f64.add_values(a.get_model_mut(), &vec![Value::Count(1), Value::Count(2)]);
    assert!(a.is_input_empty());
    assert!(!a.is_output_empty());
    {
        let port = a.get_out_port("f64").unwrap();
        assert!(!a.get_model().out_port(port.index).is_empty());
    }

    a.clear_output();
    assert!(a.is_input_empty());
    assert!(a.is_output_empty());

    a.get_model_mut().receive(in_i32.index, &vec![Value::Int(1)]);
    assert!(!a.is_input_empty());
    assert!(a.is_output_empty());
    {
        let port = a.get_in_port("i32").unwrap();
        assert!(!port.is_empty(a.get_model()));
    }

    a.clear_input();
    assert!(a.is_input_empty());
    assert!(a.is_output_empty());
}

#[test]
fn new_component_is_at_time_zero_and_never_scheduled() {
    let mut c: Component<Value> = Component::new("c");
    assert_eq!(c.get_t_last(), 0);
    assert_eq!(c.get_t_next(), INFINITY);
    assert!(c.is_named("c"));
    assert!(!c.is_named("d"));
    c.set_sim_t(4, 9);
    assert_eq!(c.get_t_last(), 4);
    assert_eq!(c.get_t_next(), 9);
}

#[test]
fn ports_of_a_name_are_found_by_direction() {
    let mut m: Model<Value> = Model::new("m");
    let a = m.add_in_port("a", Kind::Bool);
    let b = m.add_in_port("b", Kind::Job);
    let c = m.add_out_port("a", Kind::Count);
    assert_eq!((a.index, a.kind), (0, Kind::Bool));
    assert_eq!((b.index, b.kind), (1, Kind::Job));
    assert_eq!((c.index, c.kind), (0, Kind::Count));
    let found = m.try_get_in_port("b").unwrap();
    assert_eq!((found.index, found.kind), (1, Kind::Job));
    let found = m.try_get_out_port("a").unwrap();
    assert_eq!((found.index, found.kind), (0, Kind::Count));
    assert!(m.try_get_in_port("c").is_none());
    assert!(m.try_get_out_port("b").is_none());
}

#[test]
fn add_port_refuses_a_name_that_is_taken() {
    let mut ports: Vec<Port<Value>> = Vec::new();
    assert_eq!(Model::add_port(&mut ports, "x", Kind::Int), Some(0));
    assert_eq!(Model::add_port(&mut ports, "y", Kind::Int), Some(1));
    assert_eq!(Model::add_port(&mut ports, "x", Kind::Bool), None);
    assert_eq!(ports.len(), 2);
    assert_eq!(ports[0].get_kind(), Kind::Int);
}

#[test]
fn port_propagate_appends_a_copy() {
    let mut from: Port<Value> = Port::new("from", Kind::Count);
    let mut to: Port<Value> = Port::new("to", Kind::Count);
    from.add_value(Value::Count(1));
    from.add_values(&vec![Value::Count(2), Value::Count(3)]);
    to.add_value(Value::Count(9));
    assert!(to.is_compatible(&from));
    to.propagate(&from);
    assert_eq!(
        to.get_values(),
        &vec![Value::Count(9), Value::Count(1), Value::Count(2), Value::Count(3)]
    );
    assert_eq!(from.get_values().len(), 3);
    to.clear();
    assert!(to.is_empty());
    assert!(!to.is_compatible(&Port::<Value>::new("other", Kind::Bool)));
    assert!(to.has_name("to"));
    assert_eq!(from.get_name(), "from");
}

#[test]
fn values_know_their_kind() {
    assert_eq!(Value::Bool(true).kind(), Kind::Bool);
    assert_eq!(Value::Count(3).kind(), Kind::Count);
    assert_eq!(Value::Int(-3).kind(), Kind::Int);
    assert_eq!(Value::Job(1, 2).kind(), Kind::Job);
    assert!(Kind::Job.same_as(&Kind::Job));
    assert!(!Kind::Job.same_as(&Kind::Int));
}
