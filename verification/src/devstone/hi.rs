//! The HI model: high interconnectivity. As the LI model, and in addition the
//! atomic models of a level form a chain.
use super::li::one_in_one_out;
use super::model::DEVStoneModel;
use super::{across, atomic, atomic_node, inward, lemma_names, outward, seeder, seeder_node};
use crate::modeling::component::ComponentView;
use crate::modeling::coupled::{
    lemma_find_component, BodyView, Coupled, Coupling, Endpoint, NodeView, Subcomponent,
};
use crate::modeling::model::ModelView;
use crate::modeling::Kind;
use crate::text::{lemma_numbered_names_differ, numbered, numbered_name};
use crate::time::INFINITY;
use vstd::prelude::*;

verus! {

/// The couplings of a chain of `n` subcomponents that follow the first
/// subcomponent: each sends its output to the input of the next.
pub open spec fn chain(n: nat) -> Seq<Coupling> {
    if n <= 1 {
        Seq::empty()
    } else {
        Seq::new((n - 1) as nat, |k: int| across((k + 1) as usize, 0, (k + 2) as usize, 0))
    }
}

/// A DEVStone model with high interconnectivity.
pub struct HI {
    pub coupled: Coupled<DEVStoneModel>,
}

impl HI {
    /// The subcomponents of a level: at depth one the inner atomic model,
    /// else the level below followed by `width - 1` atomic models.
    pub open spec fn children(
        width: usize,
        depth: usize,
        int_delay: u64,
        ext_delay: u64,
    ) -> Seq<NodeView<DEVStoneModel>>
        decreases depth, 0int,
    {
        if depth <= 1 {
            seq![atomic_node("inner_atomic"@, int_delay, ext_delay)]
        } else {
            seq![HI::level(width, (depth - 1) as usize, int_delay, ext_delay)] + Seq::new(
                (width - 1) as nat,
                |i: int| atomic_node(
                    numbered_name("atomic_"@, (i + 1) as nat),
                    int_delay,
                    ext_delay,
                ),
            )
        }
    }

    /// A level of the model: its input goes to the input of every
    /// subcomponent, the output of its first subcomponent goes to its
    /// output, and each atomic model sends its output to the next one.
    pub open spec fn level(
        width: usize,
        depth: usize,
        int_delay: u64,
        ext_delay: u64,
    ) -> NodeView<DEVStoneModel>
        decreases depth, 1int,
    {
        NodeView {
            component: ComponentView {
                model: one_in_one_out(numbered_name("coupled_"@, depth as nat)),
                t_last: 0,
                t_next: INFINITY,
            },
            body: BodyView::Coupled {
                children: HI::children(width, depth, int_delay, ext_delay),
                eics: Seq::new(
                    HI::children(width, depth, int_delay, ext_delay).len(),
                    |c: int| inward(0, c as usize, 0),
                ),
                ics: if depth <= 1 {
                    Seq::empty()
                } else {
                    chain((width - 1) as nat)
                },
                eocs: seq![outward(0, 0, 0)],
            },
        }
    }

    /// The whole model: a seeder that feeds the outermost level.
    pub open spec fn model(
        width: usize,
        depth: usize,
        int_delay: u64,
        ext_delay: u64,
    ) -> NodeView<DEVStoneModel> {
        NodeView {
            component: ComponentView {
                model: ModelView { name: "HI"@, inputs: Seq::empty(), outputs: Seq::empty() },
                t_last: 0,
                t_next: INFINITY,
            },
            body: BodyView::Coupled {
                children: seq![seeder_node("seeder"@), HI::level(
                    width,
                    depth,
                    int_delay,
                    ext_delay,
                )],
                eics: Seq::empty(),
                ics: seq![across(0, 0, 1, 0)],
                eocs: Seq::empty(),
            },
        }
    }

    /// Builds the model of the given width and depth, with its seeder.
    pub fn create(
        width: usize,
        depth: usize,
        int_delay: u64,
        ext_delay: u64,
    ) -> (coupled: Coupled<DEVStoneModel>)
        requires
            width >= 1,
            depth >= 1,
        ensures
            coupled@.wf(),
            coupled@ == HI::model(width, depth, int_delay, ext_delay),
    {
        let mut coupled: Coupled<DEVStoneModel> = Coupled::new("HI");
        let hi = HI::new(width, depth, int_delay, ext_delay);
        proof {
            lemma_names(depth as nat, 0);
            lemma_find_component(coupled@.children(), "seeder"@);
        }
        coupled.add_component(seeder("seeder"));
        proof {
            lemma_find_component(coupled@.children(), numbered_name("coupled_"@, depth as nat));
        }
        coupled.add_component(Subcomponent::Coupled(hi.coupled));
        assert(coupled@.children() =~= HI::model(width, depth, int_delay, ext_delay).children());
        coupled.connect_ic(
            Coupling {
                to: Endpoint { component: Some(1), port: 0 },
                from: Endpoint { component: Some(0), port: 0 },
            },
        );
        assert(coupled@.ics() =~= seq![across(0, 0, 1, 0)]);
        coupled
    }

    /// Builds one level of the model and everything below it.
    pub fn new(width: usize, depth: usize, int_delay: u64, ext_delay: u64) -> (hi: HI)
        requires
            width >= 1,
            depth >= 1,
        ensures
            hi.coupled@.wf(),
            hi.coupled@ == HI::level(width, depth, int_delay, ext_delay),
        decreases depth,
    {
        let name = numbered("coupled_", depth);
        let mut coupled: Coupled<DEVStoneModel> = Coupled::new(name.as_str());
        let _ = coupled.add_in_port("input", Kind::Count);
        let _ = coupled.add_out_port("output", Kind::Count);
        let ghost ports = one_in_one_out(numbered_name("coupled_"@, depth as nat));
        assert(coupled@.component.model.inputs =~= ports.inputs);
        assert(coupled@.component.model.outputs =~= ports.outputs);
        assert(coupled@.children() =~= Seq::empty());
        if depth == 1 {
            proof {
                lemma_find_component(coupled@.children(), "inner_atomic"@);
            }
            coupled.add_component(atomic("inner_atomic", int_delay, ext_delay));
            assert(coupled@.children() =~= HI::children(width, depth, int_delay, ext_delay));
            coupled.connect_eic(
                Coupling {
                    to: Endpoint { component: Some(0), port: 0 },
                    from: Endpoint { component: None, port: 0 },
                },
            );
            coupled.connect_eoc(
                Coupling {
                    to: Endpoint { component: None, port: 0 },
                    from: Endpoint { component: Some(0), port: 0 },
                },
            );
            assert(coupled@.eics() =~= HI::level(width, depth, int_delay, ext_delay).eics());
            assert(coupled@.eocs() =~= HI::level(width, depth, int_delay, ext_delay).eocs());
        } else {
            let below = HI::new(width, depth - 1, int_delay, ext_delay);
            proof {
                lemma_find_component(
                    coupled@.children(),
                    numbered_name("coupled_"@, (depth - 1) as nat),
                );
            }
            coupled.add_component(Subcomponent::Coupled(below.coupled));
            coupled.connect_eic(
                Coupling {
                    to: Endpoint { component: Some(0), port: 0 },
                    from: Endpoint { component: None, port: 0 },
                },
            );
            coupled.connect_eoc(
                Coupling {
                    to: Endpoint { component: None, port: 0 },
                    from: Endpoint { component: Some(0), port: 0 },
                },
            );
            let ghost below_view = HI::level(width, (depth - 1) as usize, int_delay, ext_delay);
            assert(coupled@.children() =~= seq![below_view]);
            assert(coupled@.eics() =~= Seq::new(1, |c: int| inward(0, c as usize, 0)));
            assert(coupled@.ics() =~= chain(0));
            let mut i: usize = 1;
            while i < width
                invariant
                    1 <= i <= width,
                    depth > 1,
                    below_view == HI::level(width, (depth - 1) as usize, int_delay, ext_delay),
                    coupled@.wf(),
                    coupled@.component == (ComponentView {
                        model: one_in_one_out(numbered_name("coupled_"@, depth as nat)),
                        t_last: 0,
                        t_next: INFINITY,
                    }),
                    coupled@.is_coupled(),
                    coupled@.children() == seq![below_view] + Seq::new(
                        (i - 1) as nat,
                        |j: int| atomic_node(
                            numbered_name("atomic_"@, (j + 1) as nat),
                            int_delay,
                            ext_delay,
                        ),
                    ),
                    coupled@.eics() == Seq::new(i as nat, |c: int| inward(0, c as usize, 0)),
                    coupled@.ics() == chain((i - 1) as nat),
                    coupled@.eocs() == seq![outward(0, 0, 0)],
                decreases width - i,
            {
                let atomic_name = numbered("atomic_", i);
                let ghost before = coupled@;
                proof {
                    lemma_find_component(before.children(), atomic_name@);
                    lemma_names((depth - 1) as nat, i as nat);
                    assert forall|j: int| 0 <= j < before.children().len() implies (
                    #[trigger] before.children()[j]).component.model.name != atomic_name@ by {
                        if j > 0 {
                            lemma_numbered_names_differ("atomic_"@, j as nat, i as nat);
                        }
                    }
                }
                coupled.add_component(atomic(atomic_name.as_str(), int_delay, ext_delay));
                assert(coupled@.children() =~= seq![below_view] + Seq::new(
                    i as nat,
                    |j: int| atomic_node(
                        numbered_name("atomic_"@, (j + 1) as nat),
                        int_delay,
                        ext_delay,
                    ),
                ));
                proof {
                    let c = inward(0, i, 0);
                    assert forall|k: int| 0 <= k < coupled@.eics().len() implies coupled@.eics()[k]
                        != c by {}
                }
                coupled.connect_eic(
                    Coupling {
                        to: Endpoint { component: Some(i), port: 0 },
                        from: Endpoint { component: None, port: 0 },
                    },
                );
                assert(coupled@.eics() =~= Seq::new(
                    (i + 1) as nat,
                    |c: int| inward(0, c as usize, 0),
                ));
                if i > 1 {
                    proof {
                        let c = across((i - 1) as usize, 0, i, 0);
                        assert forall|k: int| 0 <= k < coupled@.ics().len() implies coupled@.ics()[k]
                            != c by {}
                    }
                    coupled.connect_ic(
                        Coupling {
                            to: Endpoint { component: Some(i), port: 0 },
                            from: Endpoint { component: Some(i - 1), port: 0 },
                        },
                    );
                }
                assert(coupled@.ics() =~= chain(i as nat));
                i = i + 1;
            }
            assert(coupled@.children() =~= HI::children(width, depth, int_delay, ext_delay));
            assert(coupled@.eics() =~= HI::level(width, depth, int_delay, ext_delay).eics());
        }
        HI { coupled }
    }
}

} // verus!
