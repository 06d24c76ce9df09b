//! The HO model: high interconnectivity with two inputs and two outputs per
//! level. The atomic models of a level are fed from the second input, form a
//! chain, and all report to the second output.
use super::hi::chain;
use super::model::DEVStoneModel;
use super::{across, atomic, atomic_node, inward, lemma_names, outward, seeder, seeder_node};
use crate::modeling::component::ComponentView;
use crate::modeling::coupled::{
    lemma_find_component, BodyView, Coupled, Coupling, Endpoint, NodeView, Subcomponent,
};
use crate::modeling::model::{lemma_find_port, ModelView};
use crate::modeling::{Kind, PortView, Value};
use crate::text::{lemma_numbered_names_differ, numbered, numbered_name};
use crate::time::INFINITY;
use vstd::prelude::*;

verus! {

/// The ports of a level with two inputs and two outputs, all for counters.
pub open spec fn two_in_two_out(name: Seq<char>) -> ModelView<Value> {
    ModelView {
        name,
        inputs: seq![
            PortView { name: "input_1"@, kind: Kind::Count, values: Seq::empty() },
            PortView { name: "input_2"@, kind: Kind::Count, values: Seq::empty() },
        ],
        outputs: seq![
            PortView { name: "output_1"@, kind: Kind::Count, values: Seq::empty() },
            PortView { name: "output_2"@, kind: Kind::Count, values: Seq::empty() },
        ],
    }
}

/// The numbered port names are different.
pub proof fn lemma_port_names()
    ensures
        "input_1"@ != "input_2"@,
        "output_1"@ != "output_2"@,
{
    reveal_strlit("input_1");
    reveal_strlit("input_2");
    reveal_strlit("output_1");
    reveal_strlit("output_2");
    assert("input_1"@[6] != "input_2"@[6]);
    assert("output_1"@[7] != "output_2"@[7]);
}

/// A DEVStone model with high interconnectivity and two outputs.
pub struct HO {
    pub coupled: Coupled<DEVStoneModel>,
}

impl HO {
    /// The subcomponents of a level: at depth one the inner atomic model,
    /// else the level below followed by `width - 1` atomic models.
    pub open spec fn children(
        width: usize,
        depth: usize,
        int_delay: u64,
        ext_delay: u64,
    ) -> Seq<NodeView<DEVStoneModel>>
        decreases depth, 0int,
    {
        if depth <= 1 {
            seq![atomic_node("inner_atomic"@, int_delay, ext_delay)]
        } else {
            seq![HO::level(width, (depth - 1) as usize, int_delay, ext_delay)] + Seq::new(
                (width - 1) as nat,
                |i: int| atomic_node(
                    numbered_name("atomic_"@, (i + 1) as nat),
                    int_delay,
                    ext_delay,
                ),
            )
        }
    }

    /// The couplings from the inputs of a level: the first input goes to the
    /// inner atomic model, or to both inputs of the level below; the second
    /// input goes to every atomic model beside the level below.
    pub open spec fn eics(
        width: usize,
        depth: usize,
        int_delay: u64,
        ext_delay: u64,
    ) -> Seq<Coupling> {
        if depth <= 1 {
            seq![inward(0, 0, 0)]
        } else {
            seq![inward(0, 0, 0), inward(0, 0, 1)] + Seq::new(
                (width - 1) as nat,
                |k: int| inward(1, (k + 1) as usize, 0),
            )
        }
    }

    /// The couplings to the outputs of a level: the first subcomponent
    /// reports to the first output, every atomic model beside the level
    /// below to the second.
    pub open spec fn eocs(
        width: usize,
        depth: usize,
        int_delay: u64,
        ext_delay: u64,
    ) -> Seq<Coupling> {
        if depth <= 1 {
            seq![outward(0, 0, 0)]
        } else {
            seq![outward(0, 0, 0)] + Seq::new(
                (width - 1) as nat,
                |k: int| outward((k + 1) as usize, 0, 1),
            )
        }
    }

    /// A level of the model.
    pub open spec fn level(
        width: usize,
        depth: usize,
        int_delay: u64,
        ext_delay: u64,
    ) -> NodeView<DEVStoneModel>
        decreases depth, 1int,
    {
        NodeView {
            component: ComponentView {
                model: two_in_two_out(numbered_name("coupled_"@, depth as nat)),
                t_last: 0,
                t_next: INFINITY,
            },
            body: BodyView::Coupled {
                children: HO::children(width, depth, int_delay, ext_delay),
                eics: HO::eics(width, depth, int_delay, ext_delay),
                ics: if depth <= 1 {
                    Seq::empty()
                } else {
                    chain((width - 1) as nat)
                },
                eocs: HO::eocs(width, depth, int_delay, ext_delay),
            },
        }
    }

    /// The whole model: a seeder that feeds both inputs of the outermost level.
    pub open spec fn model(
        width: usize,
        depth: usize,
        int_delay: u64,
        ext_delay: u64,
    ) -> NodeView<DEVStoneModel> {
        NodeView {
            component: ComponentView {
                model: ModelView { name: "HO"@, inputs: Seq::empty(), outputs: Seq::empty() },
                t_last: 0,
                t_next: INFINITY,
            },
            body: BodyView::Coupled {
                children: seq![seeder_node("seeder"@), HO::level(
                    width,
                    depth,
                    int_delay,
                    ext_delay,
                )],
                eics: Seq::empty(),
                ics: seq![across(0, 0, 1, 0), across(0, 0, 1, 1)],
                eocs: Seq::empty(),
            },
        }
    }

    /// Builds the model of the given width and depth, with its seeder.
    pub fn create(
        width: usize,
        depth: usize,
        int_delay: u64,
        ext_delay: u64,
    ) -> (coupled: Coupled<DEVStoneModel>)
        requires
            width >= 1,
            depth >= 1,
        ensures
            coupled@.wf(),
            coupled@ == HO::model(width, depth, int_delay, ext_delay),
    {
        let mut coupled: Coupled<DEVStoneModel> = Coupled::new("HO");
        let ho = HO::new(width, depth, int_delay, ext_delay);
        proof {
            lemma_names(depth as nat, 0);
            lemma_find_component(coupled@.children(), "seeder"@);
        }
        coupled.add_component(seeder("seeder"));
        proof {
            lemma_find_component(coupled@.children(), numbered_name("coupled_"@, depth as nat));
        }
        coupled.add_component(Subcomponent::Coupled(ho.coupled));
        assert(coupled@.children() =~= HO::model(width, depth, int_delay, ext_delay).children());
        coupled.connect_ic(
            Coupling {
                to: Endpoint { component: Some(1), port: 0 },
                from: Endpoint { component: Some(0), port: 0 },
            },
        );
        assert(coupled@.ics() =~= seq![across(0, 0, 1, 0)]);
        coupled.connect_ic(
            Coupling {
                to: Endpoint { component: Some(1), port: 1 },
                from: Endpoint { component: Some(0), port: 0 },
            },
        );
        assert(coupled@.ics() =~= seq![across(0, 0, 1, 0), across(0, 0, 1, 1)]);
        coupled
    }

    /// Builds one level of the model and everything below it.
    pub fn new(width: usize, depth: usize, int_delay: u64, ext_delay: u64) -> (ho: HO)
        requires
            width >= 1,
            depth >= 1,
        ensures
            ho.coupled@.wf(),
            ho.coupled@ == HO::level(width, depth, int_delay, ext_delay),
        decreases depth,
    {
        let name = numbered("coupled_", depth);
        let mut coupled: Coupled<DEVStoneModel> = Coupled::new(name.as_str());
        proof {
            lemma_port_names();
        }
        let _ = coupled.add_in_port("input_1", Kind::Count);
        proof {
            lemma_find_port(coupled@.component.model.inputs, "input_2"@);
        }
        let _ = coupled.add_in_port("input_2", Kind::Count);
        let _ = coupled.add_out_port("output_1", Kind::Count);
        proof {
            lemma_find_port(coupled@.component.model.outputs, "output_2"@);
        }
        let _ = coupled.add_out_port("output_2", Kind::Count);
        let ghost ports = two_in_two_out(numbered_name("coupled_"@, depth as nat));
        assert(coupled@.component.model.inputs =~= ports.inputs);
        assert(coupled@.component.model.outputs =~= ports.outputs);
        assert(coupled@.children() =~= Seq::empty());
        if depth == 1 {
            proof {
                lemma_find_component(coupled@.children(), "inner_atomic"@);
            }
            coupled.add_component(atomic("inner_atomic", int_delay, ext_delay));
            assert(coupled@.children() =~= HO::children(width, depth, int_delay, ext_delay));
            coupled.connect_eic(
                Coupling {
                    to: Endpoint { component: Some(0), port: 0 },
                    from: Endpoint { component: None, port: 0 },
                },
            );
            coupled.connect_eoc(
                Coupling {
                    to: Endpoint { component: None, port: 0 },
                    from: Endpoint { component: Some(0), port: 0 },
                },
            );
            assert(coupled@.eics() =~= HO::eics(width, depth, int_delay, ext_delay));
            assert(coupled@.eocs() =~= HO::eocs(width, depth, int_delay, ext_delay));
        } else {
            let below = HO::new(width, depth - 1, int_delay, ext_delay);
            proof {
                lemma_find_component(
                    coupled@.children(),
                    numbered_name("coupled_"@, (depth - 1) as nat),
                );
            }
            coupled.add_component(Subcomponent::Coupled(below.coupled));
            let ghost below_view = HO::level(width, (depth - 1) as usize, int_delay, ext_delay);
            assert(coupled@.children() =~= seq![below_view]);
            coupled.connect_eic(
                Coupling {
                    to: Endpoint { component: Some(0), port: 0 },
                    from: Endpoint { component: None, port: 0 },
                },
            );
            assert(coupled@.eics() =~= seq![inward(0, 0, 0)]);
            coupled.connect_eic(
                Coupling {
                    to: Endpoint { component: Some(0), port: 1 },
                    from: Endpoint { component: None, port: 0 },
                },
            );
            coupled.connect_eoc(
                Coupling {
                    to: Endpoint { component: None, port: 0 },
                    from: Endpoint { component: Some(0), port: 0 },
                },
            );
            assert(coupled@.children() =~= seq![below_view]);
            assert(coupled@.eics() =~= seq![inward(0, 0, 0), inward(0, 0, 1)] + Seq::new(
                0,
                |k: int| inward(1, (k + 1) as usize, 0),
            ));
            assert(coupled@.eocs() =~= seq![outward(0, 0, 0)] + Seq::new(
                0,
                |k: int| outward((k + 1) as usize, 0, 1),
            ));
            assert(coupled@.ics() =~= chain(0));
            let mut i: usize = 1;
            while i < width
                invariant
                    1 <= i <= width,
                    depth > 1,
                    below_view == HO::level(width, (depth - 1) as usize, int_delay, ext_delay),
                    coupled@.wf(),
                    coupled@.component == (ComponentView {
                        model: two_in_two_out(numbered_name("coupled_"@, depth as nat)),
                        t_last: 0,
                        t_next: INFINITY,
                    }),
                    coupled@.is_coupled(),
                    coupled@.children() == seq![below_view] + Seq::new(
                        (i - 1) as nat,
                        |j: int| atomic_node(
                            numbered_name("atomic_"@, (j + 1) as nat),
                            int_delay,
                            ext_delay,
                        ),
                    ),
                    coupled@.eics() == seq![inward(0, 0, 0), inward(0, 0, 1)] + Seq::new(
                        (i - 1) as nat,
                        |k: int| inward(1, (k + 1) as usize, 0),
                    ),
                    coupled@.ics() == chain((i - 1) as nat),
                    coupled@.eocs() == seq![outward(0, 0, 0)] + Seq::new(
                        (i - 1) as nat,
                        |k: int| outward((k + 1) as usize, 0, 1),
                    ),
                decreases width - i,
            {
                let atomic_name = numbered("atomic_", i);
                let ghost before = coupled@;
                proof {
                    lemma_find_component(before.children(), atomic_name@);
                    lemma_names((depth - 1) as nat, i as nat);
                    assert forall|j: int| 0 <= j < before.children().len() implies (
                    #[trigger] before.children()[j]).component.model.name != atomic_name@ by {
                        if j > 0 {
                            lemma_numbered_names_differ("atomic_"@, j as nat, i as nat);
                        }
                    }
                }
                coupled.add_component(atomic(atomic_name.as_str(), int_delay, ext_delay));
                assert(coupled@.children() =~= seq![below_view] + Seq::new(
                    i as nat,
                    |j: int| atomic_node(
                        numbered_name("atomic_"@, (j + 1) as nat),
                        int_delay,
                        ext_delay,
                    ),
                ));
                proof {
                    let c = inward(1, i, 0);
                    assert forall|k: int| 0 <= k < coupled@.eics().len() implies coupled@.eics()[k]
                        != c by {}
                }
                coupled.connect_eic(
                    Coupling {
                        to: Endpoint { component: Some(i), port: 0 },
                        from: Endpoint { component: None, port: 1 },
                    },
                );
                assert(coupled@.eics() =~= seq![inward(0, 0, 0), inward(0, 0, 1)] + Seq::new(
                    i as nat,
                    |k: int| inward(1, (k + 1) as usize, 0),
                ));
                if i > 1 {
                    proof {
                        let c = across((i - 1) as usize, 0, i, 0);
                        assert forall|k: int| 0 <= k < coupled@.ics().len() implies coupled@.ics()[k]
                            != c by {}
                    }
                    coupled.connect_ic(
                        Coupling {
                            to: Endpoint { component: Some(i), port: 0 },
                            from: Endpoint { component: Some(i - 1), port: 0 },
                        },
                    );
                }
                assert(coupled@.ics() =~= chain(i as nat));
                proof {
                    let c = outward(i, 0, 1);
                    assert forall|k: int| 0 <= k < coupled@.eocs().len() implies coupled@.eocs()[k]
                        != c by {}
                }
                coupled.connect_eoc(
                    Coupling {
                        to: Endpoint { component: None, port: 1 },
                        from: Endpoint { component: Some(i), port: 0 },
                    },
                );
                assert(coupled@.eocs() =~= seq![outward(0, 0, 0)] + Seq::new(
                    i as nat,
                    |k: int| outward((k + 1) as usize, 0, 1),
                ));
                i = i + 1;
            }
            assert(coupled@.children() =~= HO::children(width, depth, int_delay, ext_delay));
        }
        HO { coupled }
    }
}

} // verus!
