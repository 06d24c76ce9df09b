use xdevs::modeling::{
    Atomic, AtomicSimulator, Component, Coupled, Error, InPort, Layout, Model, ModelView,
    OutPort, PortVal, Subcomponent,
};
use xdevs::simulation::parallel::par_gather_all;
use xdevs::simulation::phases::gather_all;
use xdevs::simulation::{ParallelCoupled, Simulator};
use xdevs::text::Text;
use xdevs::time::INFINITY;
use xdevs::Event;

/// Messages of a model author's own.
#[derive(Clone, Copy, Debug, PartialEq)]
enum Sample {
    Reading(f64),
    Alarm(bool),
}

#[derive(Clone, Copy, Debug, PartialEq)]
enum SampleKind {
    Reading,
    Alarm,
}

impl PortVal for Sample {
    type Kind = SampleKind;

    // The specification functions are never run.
    fn kind_of(self) -> SampleKind {
        unreachable!()
    }

    fn text(self) -> Text {
        unreachable!()
    }

    fn parsed(_: SampleKind, _: Text) -> Option<Sample> {
        unreachable!()
    }

    fn kind(&self) -> SampleKind {
        match self {
            Sample::Reading(_) => SampleKind::Reading,
            Sample::Alarm(_) => SampleKind::Alarm,
        }
    }

    fn same_kind(a: &SampleKind, b: &SampleKind) -> bool {
        a == b
    }

    fn to_text(&self) -> String {
        match self {
            Sample::Reading(x) => format!("{x}"),
            Sample::Alarm(b) => format!("{b}"),
        }
    }

    fn parse(kind: SampleKind, text: &str) -> Option<Sample> {
        match kind {
            SampleKind::Reading => text.parse().ok().map(Sample::Reading),
            SampleKind::Alarm => text.parse().ok().map(Sample::Alarm),
        }
    }
}

/// Raises an alarm one tick after a reading above its limit arrives.
struct Watch {
    limit: f64,
    sigma: u64,
    input: InPort<Sample>,
    output: OutPort<Sample>,
}

impl Atomic for Watch {
    type Message = Sample;

    // The specification functions are never run.
    fn wf(&self, _: Layout<Sample>) -> bool {
        unreachable!()
    }

    fn ta_spec(&self) -> u64 {
        unreachable!()
    }

    fn output(&self, _: ModelView<Sample>) -> ModelView<Sample> {
        unreachable!()
    }

    fn after_int(self) -> Self {
        unreachable!()
    }

    fn after_ext(self, _: u64, _: ModelView<Sample>) -> Self {
        unreachable!()
    }

    fn after_conf(self, _: ModelView<Sample>) -> Self {
        unreachable!()
    }

    fn after_start(self) -> Self {
        unreachable!()
    }

    fn after_stop(self) -> Self {
        unreachable!()
    }

    fn start(&mut self) {}

    fn stop(&mut self) {}

    fn lambda(&self, ports: &mut Model<Sample>) {
        self.output.add_value(ports, Sample::Alarm(true));
    }

    fn delta_int(&mut self) {
        self.sigma = INFINITY;
    }

    fn delta_ext(&mut self, _e: u64, ports: &Model<Sample>) {
        for sample in self.input.get_values(ports) {
            if let Sample::Reading(x) = sample {
                if *x > self.limit {
                    self.sigma = 1;
                }
            }
        }
    }

    fn delta_conf(&mut self, ports: &Model<Sample>) {
        self.delta_int();
        self.delta_ext(0, ports);
    }

    fn ta(&self) -> u64 {
        self.sigma
    }
}

fn station() -> Coupled<Watch> {
    let mut component: Component<Sample> = Component::new("watch");
    let input = component.add_in_port("reading", SampleKind::Reading);
    let output = component.add_out_port("alarm", SampleKind::Alarm);
    let watch = AtomicSimulator::new(component, Watch { limit: 2.5, sigma: INFINITY, input, output });
    let mut station: Coupled<Watch> = Coupled::new("station");
    station.add_in_port("reading", SampleKind::Reading);
    station.add_out_port("alarm", SampleKind::Alarm);
    station.add_component(Subcomponent::Atomic(watch));
    station.add_eic("reading", "watch", "reading");
    station.add_eoc("watch", "alarm", "alarm");
    station
}

#[test]
fn messages_of_the_authors_own_type_are_routed() {
    let mut station = station();
    assert_eq!(station.start(0), INFINITY);
    assert_eq!(station.inject(&Event::new("reading", "1.5")), Ok(()));
    assert_eq!(station.transition(3), INFINITY);
    assert_eq!(station.inject(&Event::new("reading", "7.25")), Ok(()));
    assert_eq!(station.transition(4), 5);
    station.collection(5);
    assert_eq!(station.eject(), vec![Event::new("alarm", "true")]);
    assert_eq!(
        station.component.get_model().out_port(0).get_values(),
        &vec![Sample::Alarm(true)]
    );
    assert_eq!(station.transition(5), INFINITY);
    assert!(station.get_component().is_output_empty());
}

#[test]
fn ports_of_different_element_types_are_not_coupled() {
    let mut station = station();
    station.add_out_port("readings", SampleKind::Reading);
    assert!(station.try_add_eoc("watch", "alarm", "readings").is_err());
    assert_eq!(station.inject(&Event::new("reading", "high")), Err(Error::ValueParseError));
    assert_eq!(station.inject(&Event::new("alarm", "true")), Err(Error::UnknownPort));
}

#[test]
fn gathering_copies_what_each_coupling_reads() {
    let mut station = station();
    assert_eq!(station.start(0), INFINITY);
    assert_eq!(station.inject(&Event::new("reading", "1.5")), Ok(()));
    assert_eq!(station.inject(&Event::new("reading", "7.25")), Ok(()));
    let read = vec![vec![Sample::Reading(1.5), Sample::Reading(7.25)]];
    assert_eq!(gather_all(&station.component, &station.components, &station.eics), read);
    assert_eq!(par_gather_all(&station.component, &station.components, &station.eics), read);
    let nothing: Vec<Vec<Sample>> = vec![vec![]];
    assert_eq!(gather_all(&station.component, &station.components, &station.eocs), nothing);
    assert_eq!(par_gather_all(&station.component, &station.components, &station.eocs), nothing);
    let none: Vec<Vec<Sample>> = vec![];
    assert_eq!(par_gather_all(&station.component, &station.components, &station.ics), none);
}

#[test]
fn delivered_inputs_reach_the_subcomponents() {
    let mut station = station();
    assert_eq!(station.start(0), INFINITY);
    assert_eq!(station.inject(&Event::new("reading", "7.25")), Ok(()));
    let bags = gather_all(&station.component, &station.components, &station.eics);
    station.deliver_inputs(&bags);
    assert!(station.component.is_input_empty());
    assert_eq!(
        station.components[0].get_component().get_model().in_port(0).get_values(),
        &vec![Sample::Reading(7.25)]
    );
    let mut side_by_side = self::station();
    assert_eq!(side_by_side.start(0), INFINITY);
    assert_eq!(side_by_side.inject(&Event::new("reading", "7.25")), Ok(()));
    side_by_side.par_deliver_inputs(&bags);
    assert!(side_by_side.component.is_input_empty());
    assert_eq!(
        side_by_side.components[0].get_component().get_model().in_port(0).get_values(),
        &vec![Sample::Reading(7.25)]
    );
}

#[test]
fn a_subcomponent_takes_the_bags_of_the_couplings_that_end_at_it() {
    let mut station = station();
    assert_eq!(station.start(0), INFINITY);
    let bags = vec![vec![Sample::Reading(1.5), Sample::Reading(7.25)]];
    // the only coupling from the inputs ends at the first subcomponent
    station.components[0].take(1, &station.eics, &bags);
    assert!(station.components[0].get_component().is_input_empty());
    station.components[0].take(0, &station.eics, &bags);
    assert_eq!(
        station.components[0].get_component().get_model().in_port(0).get_values(),
        &vec![Sample::Reading(1.5), Sample::Reading(7.25)]
    );
}

#[test]
fn output_is_cleared_when_an_event_is_due() {
    let mut station = station();
    assert_eq!(station.start(0), INFINITY);
    assert_eq!(station.inject(&Event::new("reading", "7.25")), Ok(()));
    assert_eq!(station.transition(4), 5);
    station.collection(5);
    assert!(!station.clear_due_output(4));
    assert!(!station.component.is_output_empty());
    assert!(station.clear_due_output(5));
    assert!(station.component.is_output_empty());
}

#[test]
fn delivered_outputs_reach_the_outputs_of_the_coupled_model() {
    let mut station = station();
    assert_eq!(station.start(0), INFINITY);
    assert_eq!(station.inject(&Event::new("reading", "7.25")), Ok(()));
    assert_eq!(station.transition(4), 5);
    station.components[0].collection(5);
    let outward = gather_all(&station.component, &station.components, &station.eocs);
    assert_eq!(outward, vec![vec![Sample::Alarm(true)]]);
    station.deliver_outputs(&outward, &vec![]);
    assert_eq!(station.eject(), vec![Event::new("alarm", "true")]);
    station.par_deliver_outputs(&outward, &vec![]);
    assert_eq!(station.eject(), vec![Event::new("alarm", "true"), Event::new("alarm", "true")]);
}

#[test]
fn a_station_worked_on_in_parallel_routes_the_same_messages() {
    let mut station = ParallelCoupled::new(station());
    assert_eq!(station.start(0), INFINITY);
    assert_eq!(station.coupled.inject(&Event::new("reading", "1.5")), Ok(()));
    assert_eq!(station.transition(3), INFINITY);
    assert_eq!(station.coupled.inject(&Event::new("reading", "7.25")), Ok(()));
    assert_eq!(station.transition(4), 5);
    station.collection(5);
    assert_eq!(station.coupled.eject(), vec![Event::new("alarm", "true")]);
    assert_eq!(station.transition(5), INFINITY);
    assert!(station.get_component().is_output_empty());
}
