//! The LI model: low interconnectivity. Each level passes its input to every
//! subcomponent, and only the innermost atomic model answers.
use super::{atomic, atomic_node, across, inward, lemma_names, outward, seeder, seeder_node};
use super::model::DEVStoneModel;
use crate::modeling::component::ComponentView;
use crate::modeling::coupled::{
    lemma_find_component, BodyView, Coupled, Coupling, Endpoint, NodeView, Subcomponent,
};
use crate::modeling::model::ModelView;
use crate::modeling::{Kind, PortView, Value};
use crate::text::{lemma_numbered_names_differ, numbered, numbered_name};
use crate::time::INFINITY;
use vstd::prelude::*;

verus! {

/// The ports of a level with one input and one output, both for counters.
pub open spec fn one_in_one_out(name: Seq<char>) -> ModelView<Value> {
    ModelView {
        name,
        inputs: seq![PortView { name: "input"@, kind: Kind::Count, values: Seq::empty() }],
        outputs: seq![PortView { name: "output"@, kind: Kind::Count, values: Seq::empty() }],
    }
}

/// A DEVStone model with low interconnectivity.
pub struct LI {
    pub coupled: Coupled<DEVStoneModel>,
}

impl LI {
    /// The subcomponents of a level: at depth one the inner atomic model,
    /// else the level below followed by `width - 1` atomic models.
    pub open spec fn children(
        width: usize,
        depth: usize,
        int_delay: u64,
        ext_delay: u64,
    ) -> Seq<NodeView<DEVStoneModel>>
        decreases depth, 0int,
    {
        if depth <= 1 {
            seq![atomic_node("inner_atomic"@, int_delay, ext_delay)]
        } else {
            seq![LI::level(width, (depth - 1) as usize, int_delay, ext_delay)] + Seq::new(
                (width - 1) as nat,
                |i: int| atomic_node(
                    numbered_name("atomic_"@, (i + 1) as nat),
                    int_delay,
                    ext_delay,
                ),
            )
        }
    }

    /// A level of the model: its input goes to the input of every
    /// subcomponent, and the output of its first subcomponent goes to its output.
    pub open spec fn level(
        width: usize,
        depth: usize,
        int_delay: u64,
        ext_delay: u64,
    ) -> NodeView<DEVStoneModel>
        decreases depth, 1int,
    {
        NodeView {
            component: ComponentView {
                model: one_in_one_out(numbered_name("coupled_"@, depth as nat)),
                t_last: 0,
                t_next: INFINITY,
            },
            body: BodyView::Coupled {
                children: LI::children(width, depth, int_delay, ext_delay),
                eics: Seq::new(
                    LI::children(width, depth, int_delay, ext_delay).len(),
                    |c: int| inward(0, c as usize, 0),
                ),
                ics: Seq::empty(),
                eocs: seq![outward(0, 0, 0)],
            },
        }
    }

    /// The whole model: a seeder that feeds the outermost level.
    pub open spec fn model(
        width: usize,
        depth: usize,
        int_delay: u64,
        ext_delay: u64,
    ) -> NodeView<DEVStoneModel> {
        NodeView {
            component: ComponentView {
                model: ModelView { name: "LI"@, inputs: Seq::empty(), outputs: Seq::empty() },
                t_last: 0,
                t_next: INFINITY,
            },
            body: BodyView::Coupled {
                children: seq![seeder_node("seeder"@), LI::level(
                    width,
                    depth,
                    int_delay,
                    ext_delay,
                )],
                eics: Seq::empty(),
                ics: seq![across(0, 0, 1, 0)],
                eocs: Seq::empty(),
            },
        }
    }

    /// Builds the model of the given width and depth, with its seeder.
    pub fn create(
        width: usize,
        depth: usize,
        int_delay: u64,
        ext_delay: u64,
    ) -> (coupled: Coupled<DEVStoneModel>)
        requires
            width >= 1,
            depth >= 1,
        ensures
            coupled@.wf(),
            coupled@ == LI::model(width, depth, int_delay, ext_delay),
    {
        let mut coupled: Coupled<DEVStoneModel> = Coupled::new("LI");
        let li = LI::new(width, depth, int_delay, ext_delay);
        proof {
            lemma_names(depth as nat, 0);
            lemma_find_component(coupled@.children(), "seeder"@);
        }
        coupled.add_component(seeder("seeder"));
        proof {
            lemma_find_component(coupled@.children(), numbered_name("coupled_"@, depth as nat));
        }
        coupled.add_component(Subcomponent::Coupled(li.coupled));
        assert(coupled@.children() =~= LI::model(width, depth, int_delay, ext_delay).children());
        coupled.connect_ic(
            Coupling {
                to: Endpoint { component: Some(1), port: 0 },
                from: Endpoint { component: Some(0), port: 0 },
            },
        );
        assert(coupled@.ics() =~= seq![across(0, 0, 1, 0)]);
        coupled
    }

    /// Builds one level of the model and everything below it.
    pub fn new(width: usize, depth: usize, int_delay: u64, ext_delay: u64) -> (li: LI)
        requires
            width >= 1,
            depth >= 1,
        ensures
            li.coupled@.wf(),
            li.coupled@ == LI::level(width, depth, int_delay, ext_delay),
        decreases depth,
    {
        let name = numbered("coupled_", depth);
        let mut coupled: Coupled<DEVStoneModel> = Coupled::new(name.as_str());
        let _ = coupled.add_in_port("input", Kind::Count);
        let _ = coupled.add_out_port("output", Kind::Count);
        let ghost ports = one_in_one_out(numbered_name("coupled_"@, depth as nat));
        assert(coupled@.component.model.inputs =~= ports.inputs);
        assert(coupled@.component.model.outputs =~= ports.outputs);
        assert(coupled@.children() =~= Seq::empty());
        if depth == 1 {
            proof {
                lemma_find_component(coupled@.children(), "inner_atomic"@);
            }
            coupled.add_component(atomic("inner_atomic", int_delay, ext_delay));
            assert(coupled@.children() =~= LI::children(width, depth, int_delay, ext_delay));
            coupled.connect_eic(
                Coupling {
                    to: Endpoint { component: Some(0), port: 0 },
                    from: Endpoint { component: None, port: 0 },
                },
            );
            coupled.connect_eoc(
                Coupling {
                    to: Endpoint { component: None, port: 0 },
                    from: Endpoint { component: Some(0), port: 0 },
                },
            );
            assert(coupled@.eics() =~= LI::level(width, depth, int_delay, ext_delay).eics());
            assert(coupled@.eocs() =~= LI::level(width, depth, int_delay, ext_delay).eocs());
        } else {
            let below = LI::new(width, depth - 1, int_delay, ext_delay);
            proof {
                lemma_find_component(
                    coupled@.children(),
                    numbered_name("coupled_"@, (depth - 1) as nat),
                );
            }
            coupled.add_component(Subcomponent::Coupled(below.coupled));
            coupled.connect_eic(
                Coupling {
                    to: Endpoint { component: Some(0), port: 0 },
                    from: Endpoint { component: None, port: 0 },
                },
            );
            coupled.connect_eoc(
                Coupling {
                    to: Endpoint { component: None, port: 0 },
                    from: Endpoint { component: Some(0), port: 0 },
                },
            );
            let ghost below_view = LI::level(width, (depth - 1) as usize, int_delay, ext_delay);
            assert(coupled@.children() =~= seq![below_view]);
            assert(coupled@.eics() =~= Seq::new(1, |c: int| inward(0, c as usize, 0)));
            let mut i: usize = 1;
            while i < width
                invariant
                    1 <= i <= width,
                    depth > 1,
                    below_view == LI::level(width, (depth - 1) as usize, int_delay, ext_delay),
                    coupled@.wf(),
                    coupled@.component == (ComponentView {
                        model: one_in_one_out(numbered_name("coupled_"@, depth as nat)),
                        t_last: 0,
                        t_next: INFINITY,
                    }),
                    coupled@.is_coupled(),
                    coupled@.children() == seq![below_view] + Seq::new(
                        (i - 1) as nat,
                        |j: int| atomic_node(
                            numbered_name("atomic_"@, (j + 1) as nat),
                            int_delay,
                            ext_delay,
                        ),
                    ),
                    coupled@.eics() == Seq::new(i as nat, |c: int| inward(0, c as usize, 0)),
                    coupled@.ics() == Seq::<Coupling>::empty(),
                    coupled@.eocs() == seq![outward(0, 0, 0)],
                decreases width - i,
            {
                let atomic_name = numbered("atomic_", i);
                let ghost before = coupled@;
                proof {
                    lemma_find_component(before.children(), atomic_name@);
                    lemma_names((depth - 1) as nat, i as nat);
                    assert forall|j: int| 0 <= j < before.children().len() implies (
                    #[trigger] before.children()[j]).component.model.name != atomic_name@ by {
                        if j > 0 {
                            lemma_numbered_names_differ("atomic_"@, j as nat, i as nat);
                        }
                    }
                }
                coupled.add_component(atomic(atomic_name.as_str(), int_delay, ext_delay));
                assert(coupled@.children() =~= seq![below_view] + Seq::new(
                    i as nat,
                    |j: int| atomic_node(
                        numbered_name("atomic_"@, (j + 1) as nat),
                        int_delay,
                        ext_delay,
                    ),
                ));
                proof {
                    let c = inward(0, i, 0);
                    assert forall|k: int| 0 <= k < coupled@.eics().len() implies coupled@.eics()[k]
                        != c by {}
                }
                coupled.connect_eic(
                    Coupling {
                        to: Endpoint { component: Some(i), port: 0 },
                        from: Endpoint { component: None, port: 0 },
                    },
                );
                assert(coupled@.eics() =~= Seq::new(
                    (i + 1) as nat,
                    |c: int| inward(0, c as usize, 0),
                ));
                i = i + 1;
            }
            assert(coupled@.children() =~= LI::children(width, depth, int_delay, ext_delay));
            assert(coupled@.eics() =~= LI::level(width, depth, int_delay, ext_delay).eics());
        }
        LI { coupled }
    }
}

} // verus!
