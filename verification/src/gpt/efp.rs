//! The coupled models of the example: generator, processor and transducer
//! side by side, and the same with generator and transducer inside an
//! experimental frame.
use super::generator::Generator;
use super::model::GptModel;
use super::processor::Processor;
use super::transducer::Transducer;
use crate::modeling::component::ComponentView;
use crate::modeling::coupled::{
    lemma_find_component, lemma_find_component_at, AtomicSimulator, BodyView, Coupled, Coupling,
    Endpoint, NodeView, Subcomponent,
};
use crate::modeling::model::{lemma_find_port_at, ModelView};
use crate::modeling::{Kind, PortView, Value};
use crate::time::INFINITY;
use vstd::prelude::*;

verus! {

/// An atomic model that has not been started, as a node of a hierarchy.
pub open spec fn fresh(ports: ModelView<Value>, model: GptModel) -> NodeView<GptModel> {
    NodeView {
        component: ComponentView { model: ports, t_last: 0, t_next: INFINITY },
        body: BodyView::Atomic(model),
    }
}

/// A coupling between ports of two subcomponents, by their positions.
pub open spec fn link(from: usize, port_from: usize, to: usize, port_to: usize) -> Coupling {
    Coupling {
        to: Endpoint { component: Some(to), port: port_to },
        from: Endpoint { component: Some(from), port: port_from },
    }
}

/// The names used in the example are all different.
pub proof fn lemma_names_differ()
    ensures
        "generator"@ != "processor"@,
        "generator"@ != "transducer"@,
        "processor"@ != "transducer"@,
        "ef"@ != "processor"@,
        "input_req"@ != "input_res"@,
{
    reveal_strlit("generator");
    reveal_strlit("processor");
    reveal_strlit("transducer");
    reveal_strlit("ef");
    reveal_strlit("input_req");
    reveal_strlit("input_res");
    assert("generator"@[0] != "processor"@[0]);
    assert("generator"@[0] != "transducer"@[0]);
    assert("processor"@[0] != "transducer"@[0]);
    assert("ef"@[0] != "processor"@[0]);
    assert("input_req"@[8] != "input_res"@[8]);
}

/// Generator, processor and transducer in one coupled model.
pub struct Gpt {
    pub coupled: Coupled<GptModel>,
}

impl Gpt {
    /// The hierarchy of the example: requests go from the generator to the
    /// processor and to the transducer, finished jobs from the processor to
    /// the transducer, and the stop signal from the transducer to the generator.
    pub open spec fn model(name: Seq<char>, req_period: u64, proc_time: u64, obs_time: u64) -> NodeView<
        GptModel,
    > {
        NodeView {
            component: ComponentView {
                model: ModelView { name, inputs: Seq::empty(), outputs: Seq::empty() },
                t_last: 0,
                t_next: INFINITY,
            },
            body: BodyView::Coupled {
                children: seq![
                    fresh(
                        Generator::ports("generator"@),
                        GptModel::Generator(Generator::initial(req_period)),
                    ),
                    fresh(
                        Processor::ports("processor"@),
                        GptModel::Processor(Processor::initial(proc_time)),
                    ),
                    fresh(
                        Transducer::ports("transducer"@),
                        GptModel::Transducer(Transducer::initial(obs_time)),
                    ),
                ],
                eics: Seq::empty(),
                ics: seq![link(0, 0, 1, 0), link(0, 0, 2, 0), link(1, 0, 2, 1), link(2, 0, 0, 0)],
                eocs: Seq::empty(),
            },
        }
    }

    /// Builds the example with the given request period, processing time and
    /// observation time.
    pub fn new(name: &str, req_period: u64, proc_time: u64, obs_time: u64) -> (gpt: Gpt)
        ensures
            gpt.coupled@.wf(),
            gpt.coupled@ == Gpt::model(name@, req_period, proc_time, obs_time),
    {
        let mut coupled: Coupled<GptModel> = Coupled::new(name);
        let generator = Generator::new("generator", req_period);
        let processor = Processor::new("processor", proc_time);
        let transducer = Transducer::new("transducer", obs_time);
        let generator = AtomicSimulator::new(
            generator.component,
            GptModel::Generator(generator.model),
        );
        let processor = AtomicSimulator::new(
            processor.component,
            GptModel::Processor(processor.model),
        );
        let transducer = AtomicSimulator::new(
            transducer.component,
            GptModel::Transducer(transducer.model),
        );
        proof {
            lemma_names_differ();
            lemma_find_component(coupled@.children(), "generator"@);
        }
        coupled.add_component(Subcomponent::Atomic(generator));
        proof {
            lemma_find_component(coupled@.children(), "processor"@);
        }
        coupled.add_component(Subcomponent::Atomic(processor));
        proof {
            lemma_find_component(coupled@.children(), "transducer"@);
        }
        coupled.add_component(Subcomponent::Atomic(transducer));
        let ghost children = coupled@.children();
        proof {
            lemma_find_component_at(children, "generator"@, 0);
            lemma_find_component_at(children, "processor"@, 1);
            lemma_find_component_at(children, "transducer"@, 2);
            lemma_find_port_at(children[0].component.model.inputs, "input_stop"@, 0);
            lemma_find_port_at(children[0].component.model.outputs, "output_req"@, 0);
            lemma_find_port_at(children[1].component.model.inputs, "input_req"@, 0);
            lemma_find_port_at(children[1].component.model.outputs, "output_res"@, 0);
            lemma_find_port_at(children[2].component.model.inputs, "input_req"@, 0);
            lemma_find_port_at(children[2].component.model.inputs, "input_res"@, 1);
            lemma_find_port_at(children[2].component.model.outputs, "output_stop"@, 0);
        }
        assert(coupled@.ic("generator"@, "output_req"@, "processor"@, "input_req"@) == Ok::<
            Coupling,
            crate::modeling::coupled::TopologyError,
        >(link(0, 0, 1, 0)));
        coupled.add_ic("generator", "output_req", "processor", "input_req");
        assert(coupled@.children() == children);
        assert(coupled@.ics() =~= seq![link(0, 0, 1, 0)]);
        assert(coupled@.ic("generator"@, "output_req"@, "transducer"@, "input_req"@) == Ok::<
            Coupling,
            crate::modeling::coupled::TopologyError,
        >(link(0, 0, 2, 0)));
        coupled.add_ic("generator", "output_req", "transducer", "input_req");
        assert(coupled@.children() == children);
        assert(coupled@.ics() =~= seq![link(0, 0, 1, 0), link(0, 0, 2, 0)]);
        assert(coupled@.ic("processor"@, "output_res"@, "transducer"@, "input_res"@) == Ok::<
            Coupling,
            crate::modeling::coupled::TopologyError,
        >(link(1, 0, 2, 1)));
        coupled.add_ic("processor", "output_res", "transducer", "input_res");
        assert(coupled@.children() == children);
        assert(coupled@.ics() =~= seq![link(0, 0, 1, 0), link(0, 0, 2, 0), link(1, 0, 2, 1)]);
        assert(coupled@.ic("transducer"@, "output_stop"@, "generator"@, "input_stop"@) == Ok::<
            Coupling,
            crate::modeling::coupled::TopologyError,
        >(link(2, 0, 0, 0)));
        coupled.add_ic("transducer", "output_stop", "generator", "input_stop");
        assert(coupled@.ics() =~= seq![
            link(0, 0, 1, 0),
            link(0, 0, 2, 0),
            link(1, 0, 2, 1),
            link(2, 0, 0, 0),
        ]);
        assert(coupled@.children() =~= Gpt::model(
            name@,
            req_period,
            proc_time,
            obs_time,
        ).children());
        Gpt { coupled }
    }
}

/// The experimental frame: generator and transducer in one coupled model that
/// sends requests out and takes finished jobs in.
pub struct ExperimentalFrame {
    pub coupled: Coupled<GptModel>,
}

impl ExperimentalFrame {
    /// The ports of an experimental frame: the input `input_res` for jobs and
    /// the output `output_req` for counters.
    pub open spec fn ports(name: Seq<char>) -> ModelView<Value> {
        ModelView {
            name,
            inputs: seq![PortView { name: "input_res"@, kind: Kind::Job, values: Seq::empty() }],
            outputs: seq![PortView { name: "output_req"@, kind: Kind::Count, values: Seq::empty() }],
        }
    }

    /// The hierarchy of the frame: finished jobs go from its input to the
    /// transducer, requests from the generator to the transducer and to its
    /// output, and the stop signal from the transducer to the generator.
    pub open spec fn model(name: Seq<char>, req_period: u64, obs_time: u64) -> NodeView<GptModel> {
        NodeView {
            component: ComponentView {
                model: ExperimentalFrame::ports(name),
                t_last: 0,
                t_next: INFINITY,
            },
            body: BodyView::Coupled {
                children: seq![
                    fresh(
                        Generator::ports("generator"@),
                        GptModel::Generator(Generator::initial(req_period)),
                    ),
                    fresh(
                        Transducer::ports("transducer"@),
                        GptModel::Transducer(Transducer::initial(obs_time)),
                    ),
                ],
                eics: seq![
                    Coupling {
                        to: Endpoint { component: Some(1), port: 1 },
                        from: Endpoint { component: None, port: 0 },
                    },
                ],
                ics: seq![link(0, 0, 1, 0), link(1, 0, 0, 0)],
                eocs: seq![
                    Coupling {
                        to: Endpoint { component: None, port: 0 },
                        from: Endpoint { component: Some(0), port: 0 },
                    },
                ],
            },
        }
    }

    /// Builds an experimental frame with the given request period and observation time.
    pub fn new(name: &str, req_period: u64, obs_time: u64) -> (ef: ExperimentalFrame)
        ensures
            ef.coupled@.wf(),
            ef.coupled@ == ExperimentalFrame::model(name@, req_period, obs_time),
    {
        let mut coupled: Coupled<GptModel> = Coupled::new(name);
        let _ = coupled.add_in_port("input_res", Kind::Job);
        let _ = coupled.add_out_port("output_req", Kind::Count);
        assert(coupled@.component.model.inputs =~= ExperimentalFrame::ports(name@).inputs);
        assert(coupled@.component.model.outputs =~= ExperimentalFrame::ports(name@).outputs);
        assert(coupled@.children() =~= Seq::empty());
        let generator = Generator::new("generator", req_period);
        let transducer = Transducer::new("transducer", obs_time);
        let generator = AtomicSimulator::new(
            generator.component,
            GptModel::Generator(generator.model),
        );
        let transducer = AtomicSimulator::new(
            transducer.component,
            GptModel::Transducer(transducer.model),
        );
        proof {
            lemma_names_differ();
            lemma_find_component(coupled@.children(), "generator"@);
        }
        coupled.add_component(Subcomponent::Atomic(generator));
        proof {
            lemma_find_component(coupled@.children(), "transducer"@);
        }
        coupled.add_component(Subcomponent::Atomic(transducer));
        let ghost children = coupled@.children();
        let ghost ports = coupled@.component.model;
        proof {
            lemma_find_component_at(children, "generator"@, 0);
            lemma_find_component_at(children, "transducer"@, 1);
            lemma_find_port_at(ports.inputs, "input_res"@, 0);
            lemma_find_port_at(ports.outputs, "output_req"@, 0);
            lemma_find_port_at(children[0].component.model.inputs, "input_stop"@, 0);
            lemma_find_port_at(children[0].component.model.outputs, "output_req"@, 0);
            lemma_find_port_at(children[1].component.model.inputs, "input_req"@, 0);
            lemma_find_port_at(children[1].component.model.inputs, "input_res"@, 1);
            lemma_find_port_at(children[1].component.model.outputs, "output_stop"@, 0);
        }
        let ghost eic = Coupling {
            to: Endpoint { component: Some(1), port: 1 },
            from: Endpoint { component: None, port: 0 },
        };
        let ghost eoc = Coupling {
            to: Endpoint { component: None, port: 0 },
            from: Endpoint { component: Some(0), port: 0 },
        };
        assert(coupled@.eic("input_res"@, "transducer"@, "input_res"@) == Ok::<
            Coupling,
            crate::modeling::coupled::TopologyError,
        >(eic));
        coupled.add_eic("input_res", "transducer", "input_res");
        assert(coupled@.children() == children);
        assert(coupled@.eics() =~= seq![eic]);
        assert(coupled@.ic("generator"@, "output_req"@, "transducer"@, "input_req"@) == Ok::<
            Coupling,
            crate::modeling::coupled::TopologyError,
        >(link(0, 0, 1, 0)));
        coupled.add_ic("generator", "output_req", "transducer", "input_req");
        assert(coupled@.children() == children);
        assert(coupled@.ics() =~= seq![link(0, 0, 1, 0)]);
        assert(coupled@.ic("transducer"@, "output_stop"@, "generator"@, "input_stop"@) == Ok::<
            Coupling,
            crate::modeling::coupled::TopologyError,
        >(link(1, 0, 0, 0)));
        coupled.add_ic("transducer", "output_stop", "generator", "input_stop");
        assert(coupled@.children() == children);
        assert(coupled@.ics() =~= seq![link(0, 0, 1, 0), link(1, 0, 0, 0)]);
        assert(coupled@.eoc("generator"@, "output_req"@, "output_req"@) == Ok::<
            Coupling,
            crate::modeling::coupled::TopologyError,
        >(eoc));
        coupled.add_eoc("generator", "output_req", "output_req");
        assert(coupled@.eocs() =~= seq![eoc]);
        assert(coupled@.children() =~= ExperimentalFrame::model(
            name@,
            req_period,
            obs_time,
        ).children());
        ExperimentalFrame { coupled }
    }
}

/// The experimental frame coupled with a processor.
pub struct Efp {
    pub coupled: Coupled<GptModel>,
}

impl Efp {
    /// The hierarchy: requests go from the frame to the processor and
    /// finished jobs from the processor to the frame.
    pub open spec fn model(name: Seq<char>, req_period: u64, proc_time: u64, obs_time: u64) -> NodeView<
        GptModel,
    > {
        NodeView {
            component: ComponentView {
                model: ModelView { name, inputs: Seq::empty(), outputs: Seq::empty() },
                t_last: 0,
                t_next: INFINITY,
            },
            body: BodyView::Coupled {
                children: seq![
                    ExperimentalFrame::model("ef"@, req_period, obs_time),
                    fresh(
                        Processor::ports("processor"@),
                        GptModel::Processor(Processor::initial(proc_time)),
                    ),
                ],
                eics: Seq::empty(),
                ics: seq![link(0, 0, 1, 0), link(1, 0, 0, 0)],
                eocs: Seq::empty(),
            },
        }
    }

    /// Builds the example with the given request period, processing time and
    /// observation time.
    pub fn new(name: &str, req_period: u64, proc_time: u64, obs_time: u64) -> (efp: Efp)
        ensures
            efp.coupled@.wf(),
            efp.coupled@ == Efp::model(name@, req_period, proc_time, obs_time),
    {
        let mut coupled: Coupled<GptModel> = Coupled::new(name);
        let ef = ExperimentalFrame::new("ef", req_period, obs_time);
        let processor = Processor::new("processor", proc_time);
        let processor = AtomicSimulator::new(
            processor.component,
            GptModel::Processor(processor.model),
        );
        proof {
            lemma_names_differ();
            lemma_find_component(coupled@.children(), "ef"@);
        }
        coupled.add_component(Subcomponent::Coupled(ef.coupled));
        proof {
            lemma_find_component(coupled@.children(), "processor"@);
        }
        coupled.add_component(Subcomponent::Atomic(processor));
        let ghost children = coupled@.children();
        proof {
            lemma_find_component_at(children, "ef"@, 0);
            lemma_find_component_at(children, "processor"@, 1);
            lemma_find_port_at(children[0].component.model.inputs, "input_res"@, 0);
            lemma_find_port_at(children[0].component.model.outputs, "output_req"@, 0);
            lemma_find_port_at(children[1].component.model.inputs, "input_req"@, 0);
            lemma_find_port_at(children[1].component.model.outputs, "output_res"@, 0);
        }
        assert(coupled@.ic("ef"@, "output_req"@, "processor"@, "input_req"@) == Ok::<
            Coupling,
            crate::modeling::coupled::TopologyError,
        >(link(0, 0, 1, 0)));
        coupled.add_ic("ef", "output_req", "processor", "input_req");
        assert(coupled@.children() == children);
        assert(coupled@.ics() =~= seq![link(0, 0, 1, 0)]);
        assert(coupled@.ic("processor"@, "output_res"@, "ef"@, "input_res"@) == Ok::<
            Coupling,
            crate::modeling::coupled::TopologyError,
        >(link(1, 0, 0, 0)));
        coupled.add_ic("processor", "output_res", "ef", "input_res");
        assert(coupled@.ics() =~= seq![link(0, 0, 1, 0), link(1, 0, 0, 0)]);
        assert(coupled@.children() =~= Efp::model(
            name@,
            req_period,
            proc_time,
            obs_time,
        ).children());
        Efp { coupled }
    }
}

} // verus!
