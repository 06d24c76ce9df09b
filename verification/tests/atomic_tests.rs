use xdevs::gpt::Generator;
use xdevs::modeling::atomic::delta_conf_default;
use xdevs::modeling::{
    Atomic, AtomicSimulator, Component, InPort, Kind, Layout, Model, ModelView, OutPort, Value,
};
use xdevs::simulation::Simulator;
use xdevs::time::INFINITY;

struct TestAtomic {
    n_delta_int: i32,
    n_delta_ext: i32,
    sigma: u64,
    in_port: InPort<Value>,
    out_port: OutPort<Value>,
}

impl TestAtomic {
    fn new(name: &str) -> AtomicSimulator<TestAtomic> {
        let mut component: Component<Value> = Component::new(name);
        let in_port = component.add_in_port("in_port", Kind::Int);
        let out_port = component.add_out_port("out_port", Kind::Int);
        AtomicSimulator::new(
            component,
            TestAtomic { n_delta_int: 0, n_delta_ext: 0, sigma: INFINITY, in_port, out_port },
        )
    }
}

impl Atomic for TestAtomic {
    type Message = Value;

    // The specification functions are never run.
    fn wf(&self, _: Layout<Value>) -> bool {
        unreachable!()
    }

    fn ta_spec(&self) -> u64 {
        unreachable!()
    }

    fn output(&self, _: ModelView<Value>) -> ModelView<Value> {
        unreachable!()
    }

    fn after_int(self) -> Self {
        unreachable!()
    }

    fn after_ext(self, _: u64, _: ModelView<Value>) -> Self {
        unreachable!()
    }

    fn after_conf(self, _: ModelView<Value>) -> Self {
        unreachable!()
    }

    fn after_start(self) -> Self {
        unreachable!()
    }

    fn after_stop(self) -> Self {
        unreachable!()
    }

    fn start(&mut self) {}

    fn stop(&mut self) {}

    fn lambda(&self, ports: &mut Model<Value>) {
        self.out_port.add_value(ports, Value::Int((self.n_delta_ext + self.n_delta_int) as i64));
    }

    fn delta_int(&mut self) {
        self.n_delta_int += 1;
        self.sigma = INFINITY;
    }

    fn delta_ext(&mut self, _e: u64, ports: &Model<Value>) {
        self.n_delta_ext += 1;
        let mut new_sigma = 0;
        for msg in self.in_port.get_values(ports) {
            if let Value::Int(v) = msg {
                new_sigma += *v as u64;
            }
        }
        self.sigma = new_sigma;
    }

    fn delta_conf(&mut self, ports: &Model<Value>) {
        self.delta_int();
        self.delta_ext(0, ports);
    }

    fn ta(&self) -> u64 {
        self.sigma
    }
}

fn add_input_value(atomic: &mut AtomicSimulator<TestAtomic>, value: i64) {
    let index = atomic.model.in_port.index;
    atomic.component.get_model_mut().receive(index, &vec![Value::Int(value)]);
}

fn output_values(atomic: &AtomicSimulator<TestAtomic>) -> Vec<Value> {
    atomic.model.out_port_values(&atomic.component)
}

impl TestAtomic {
    fn out_port_values(&self, component: &Component<Value>) -> Vec<Value> {
        component.get_model().out_port(self.out_port.index).get_values().clone()
    }
}

#[test]
fn atomic_test_component() {
    let mut atomic = TestAtomic::new("atomic");
    assert_eq!(0, atomic.model.n_delta_int);
    assert_eq!(0, atomic.model.n_delta_ext);
    assert_eq!(INFINITY, atomic.model.sigma);

    add_input_value(&mut atomic, 0);
    atomic.model.delta_ext(0, atomic.component.get_model());
    assert_eq!(0, atomic.model.n_delta_int);
    assert_eq!(1, atomic.model.n_delta_ext);
    assert_eq!(0, atomic.model.sigma);
    atomic.clear_input();

    atomic.model.lambda(atomic.component.get_model_mut());
    assert_eq!(0, atomic.model.n_delta_int);
    assert_eq!(1, atomic.model.n_delta_ext);
    assert_eq!(0, atomic.model.sigma);
    assert_eq!(1, output_values(&atomic).len());
    assert_eq!(Value::Int(1), output_values(&atomic)[0]);

    atomic.model.delta_int();
    assert_eq!(1, atomic.model.n_delta_int);
    assert_eq!(1, atomic.model.n_delta_ext);
    assert_eq!(INFINITY, atomic.model.sigma);
    atomic.clear_output();
    assert_eq!(0, output_values(&atomic).len());

    add_input_value(&mut atomic, 0);
    add_input_value(&mut atomic, 1);
    add_input_value(&mut atomic, 2);
    atomic.model.delta_ext(0, atomic.component.get_model());
    assert_eq!(1, atomic.model.n_delta_int);
    assert_eq!(2, atomic.model.n_delta_ext);
    assert_eq!(3, atomic.model.sigma);
    atomic.clear_input();

    atomic.model.lambda(atomic.component.get_model_mut());
    assert_eq!(1, atomic.model.n_delta_int);
    assert_eq!(2, atomic.model.n_delta_ext);
    assert_eq!(3, atomic.model.sigma);
    assert_eq!(1, output_values(&atomic).len());
    assert_eq!(Value::Int(3), output_values(&atomic)[0]);

    atomic.model.delta_int();
    assert_eq!(2, atomic.model.n_delta_int);
    assert_eq!(2, atomic.model.n_delta_ext);
    assert_eq!(INFINITY, atomic.model.sigma);
    atomic.clear_output();
    assert_eq!(0, output_values(&atomic).len());
}

#[test]
fn atomic_simulator_runs_external_internal_and_confluent_transitions() {
    let mut atomic = TestAtomic::new("atomic");
    assert_eq!(atomic.start(2), INFINITY);
    assert_eq!(atomic.get_t_last(), 2);

    // nothing is due and nothing arrived: the transition does nothing
    assert_eq!(atomic.transition(5), INFINITY);
    assert_eq!(atomic.get_t_last(), 2);
    assert_eq!(atomic.model.n_delta_ext, 0);

    // input before the next event: external transition, input cleared
    add_input_value(&mut atomic, 4);
    assert_eq!(atomic.transition(5), 9);
    assert_eq!(atomic.model.n_delta_ext, 1);
    assert_eq!(atomic.model.n_delta_int, 0);
    assert_eq!(atomic.get_t_last(), 5);
    assert!(atomic.get_component().is_input_empty());

    // before the next event the collection does nothing
    atomic.collection(8);
    assert!(atomic.get_component().is_output_empty());

    // at the next event the output function runs, then the internal transition clears it
    atomic.collection(9);
    assert_eq!(output_values(&atomic), vec![Value::Int(1)]);
    assert_eq!(atomic.transition(9), INFINITY);
    assert_eq!(atomic.model.n_delta_int, 1);
    assert!(atomic.get_component().is_output_empty());

    // input at the time of an internal event: confluent transition
    add_input_value(&mut atomic, 3);
    assert_eq!(atomic.transition(10), 13);
    atomic.collection(13);
    add_input_value(&mut atomic, 1);
    assert_eq!(atomic.transition(13), 14);
    assert_eq!(atomic.model.n_delta_int, 2);
    assert_eq!(atomic.model.n_delta_ext, 3);
    assert!(atomic.get_component().is_input_empty());
    assert!(atomic.get_component().is_output_empty());

    atomic.stop(20);
    assert_eq!(atomic.get_t_last(), 20);
    assert_eq!(atomic.get_t_next(), INFINITY);
}

#[test]
fn default_confluent_transition_is_internal_then_external() {
    let mut by_default = Generator::new("g", 3);
    let mut by_hand = Generator::new("g", 3);
    by_default.component.get_model_mut().receive(0, &vec![Value::Bool(true)]);
    by_hand.component.get_model_mut().receive(0, &vec![Value::Bool(true)]);
    delta_conf_default(&mut by_default.model, by_default.component.get_model());
    by_hand.model.delta_int();
    by_hand.model.delta_ext(0, by_hand.component.get_model());
    assert_eq!(by_default.model.count, by_hand.model.count);
    assert_eq!(by_default.model.sigma, by_hand.model.sigma);
    assert_eq!(by_default.model.count, 1);
    assert_eq!(by_default.model.sigma, INFINITY);
    let mut own = Generator::new("g", 3);
    own.model.delta_conf(own.component.get_model());
    assert_eq!((own.model.count, own.model.sigma), (1, 3));
}

#[test]
fn passive_model_never_transitions() {
    let mut atomic = TestAtomic::new("atomic");
    assert_eq!(atomic.start(0), INFINITY);
    for t in [0u64, 1, 100, u64::MAX - 1] {
        atomic.collection(t);
        assert_eq!(atomic.transition(t), INFINITY);
    }
    assert_eq!(atomic.model.n_delta_int, 0);
    assert_eq!(atomic.model.n_delta_ext, 0);
    assert_eq!(atomic.get_t_last(), 0);
    assert!(atomic.get_component().is_output_empty());
}
