//! The HOmod model: rows of atomic models in each level. The first row feeds
//! the level below, every model of the second row feeds the whole first row,
//! and each further row is one shorter than the row before and feeds it.
use super::model::DEVStoneModel;
use super::{across, atomic, atomic_node, inward, outward, seeder, seeder_node};
use crate::modeling::component::ComponentView;
use crate::modeling::coupled::{
    coupling_valid, lemma_find_component, BodyView, Coupled, Coupling, Endpoint, NodeView,
    Subcomponent,
};
use crate::modeling::model::{lemma_find_port, ModelView};
use crate::modeling::{Kind, PortView, Value};
use crate::text::{
    decimal, indexed, indexed_name, lemma_first_characters_differ, lemma_indexed_names_differ,
    numbered, numbered_name,
};
use crate::time::INFINITY;
use vstd::prelude::*;

verus! {

/// The ports of a level with two inputs and one output, all for counters.
pub open spec fn two_in_one_out(name: Seq<char>) -> ModelView<Value> {
    ModelView {
        name,
        inputs: seq![
            PortView { name: "input_1"@, kind: Kind::Count, values: Seq::empty() },
            PortView { name: "input_2"@, kind: Kind::Count, values: Seq::empty() },
        ],
        outputs: seq![PortView { name: "output"@, kind: Kind::Count, values: Seq::empty() }],
    }
}

/// The atomic model at place `i` of row `layer`, not yet started.
pub open spec fn row_atomic(
    layer: nat,
    i: nat,
    int_delay: u64,
    ext_delay: u64,
) -> NodeView<DEVStoneModel> {
    atomic_node(indexed_name("atomic("@, layer, i), int_delay, ext_delay)
}

/// The number of atomic models in a row of a level.
pub open spec fn row_len(width: int, layer: int) -> int {
    if layer <= 2 {
        width - 1
    } else {
        width + 1 - layer
    }
}

/// The position among the subcomponents of a level at which a row begins.
pub open spec fn row_start(width: int, layer: int) -> int
    decreases layer,
{
    if layer <= 1 {
        1
    } else {
        row_start(width, layer - 1) + row_len(width, layer - 1)
    }
}

/// The node is an atomic model of a row before `layer`, or of that row at a
/// place before `i`.
pub open spec fn placed_before(
    node: NodeView<DEVStoneModel>,
    layer: nat,
    i: nat,
    int_delay: u64,
    ext_delay: u64,
) -> bool {
    exists|a: nat, b: nat| node == #[trigger] row_atomic(
        a,
        b,
        int_delay,
        ext_delay,
    ) && (a < layer || (a == layer && b < i))
}

/// The subcomponents of a level and its couplings from inputs and between
/// subcomponents, as far as they have been laid out.
pub struct Plan {
    pub children: Seq<NodeView<DEVStoneModel>>,
    pub eics: Seq<Coupling>,
    pub ics: Seq<Coupling>,
}

/// An atomic model of a row is not called like a level, and it is not called
/// like an atomic model at another place.
pub proof fn lemma_row_names(layer: nat, i: nat, n: nat)
    ensures
        indexed_name("atomic("@, layer, i) != numbered_name("coupled_"@, n),
{
    reveal_strlit("atomic(");
    reveal_strlit("coupled_");
    let rest = decimal(layer) + ","@ + decimal(i);
    assert(indexed_name("atomic("@, layer, i) =~= "atomic("@ + rest);
    lemma_first_characters_differ("atomic("@, "coupled_"@, rest, decimal(n));
}

/// A seeder is not called like a level.
pub proof fn lemma_seeder_name(n: nat)
    ensures
        "seeder"@ != numbered_name("coupled_"@, n),
{
    super::lemma_names(n, 0);
}

/// A DEVStone model with rows of atomic models.
pub struct HOmod {
    pub coupled: Coupled<DEVStoneModel>,
}

impl HOmod {
    /// The level below, and the first `k` atomic models of the first row:
    /// each is fed from the second input and feeds the second input of the
    /// level below.
    pub open spec fn first_row(
        width: usize,
        depth: usize,
        int_delay: u64,
        ext_delay: u64,
        k: nat,
    ) -> Plan
        decreases depth, 1int, k,
    {
        if depth <= 1 {
            Plan { children: Seq::empty(), eics: Seq::empty(), ics: Seq::empty() }
        } else if k == 0 {
            Plan {
                children: seq![HOmod::level(width, (depth - 1) as usize, int_delay, ext_delay)],
                eics: seq![inward(0, 0, 0)],
                ics: Seq::empty(),
            }
        } else {
            let p = HOmod::first_row(width, depth, int_delay, ext_delay, (k - 1) as nat);
            let idx = p.children.len() as usize;
            Plan {
                children: p.children.push(row_atomic(1, k, int_delay, ext_delay)),
                eics: p.eics.push(inward(1, idx, 0)),
                ics: p.ics.push(across(idx, 0, 0, 1)),
            }
        }
    }

    /// The first row, and the first `k` atomic models of the second row: each
    /// feeds every atomic model of the first row, and the first of them is
    /// fed from the second input.
    pub open spec fn second_row(
        width: usize,
        depth: usize,
        int_delay: u64,
        ext_delay: u64,
        k: nat,
    ) -> Plan
        decreases depth, 2int, k,
    {
        if k == 0 {
            HOmod::first_row(width, depth, int_delay, ext_delay, (width - 1) as nat)
        } else {
            let p = HOmod::second_row(width, depth, int_delay, ext_delay, (k - 1) as nat);
            let idx = p.children.len() as usize;
            Plan {
                children: p.children.push(row_atomic(2, k, int_delay, ext_delay)),
                eics: if k == 1 {
                    p.eics.push(inward(1, idx, 0))
                } else {
                    p.eics
                },
                ics: p.ics + Seq::new(
                    (width - 1) as nat,
                    |q: int| across(idx, 0, (q + 1) as usize, 0),
                ),
            }
        }
    }

    /// The rows before `layer`, and the first `k` atomic models of that row:
    /// the one at place `i` feeds the one at place `i + 1` of the row before,
    /// and the first of them is fed from the second input.
    pub open spec fn later_row(
        width: usize,
        depth: usize,
        int_delay: u64,
        ext_delay: u64,
        layer: nat,
        k: nat,
    ) -> Plan
        decreases depth, 3int, layer, k,
    {
        if layer <= 2 {
            HOmod::second_row(width, depth, int_delay, ext_delay, (width - 1) as nat)
        } else if k == 0 {
            HOmod::later_row(
                width,
                depth,
                int_delay,
                ext_delay,
                (layer - 1) as nat,
                row_len(width as int, layer - 1) as nat,
            )
        } else {
            let p = HOmod::later_row(width, depth, int_delay, ext_delay, layer, (k - 1) as nat);
            let idx = p.children.len() as usize;
            Plan {
                children: p.children.push(row_atomic(layer, k, int_delay, ext_delay)),
                eics: if k == 1 {
                    p.eics.push(inward(1, idx, 0))
                } else {
                    p.eics
                },
                ics: p.ics.push(
                    across(idx, 0, (row_start(width as int, layer - 1) + k) as usize, 0),
                ),
            }
        }
    }

    /// A level of the model. At depth one it holds the inner atomic model
    /// between its first input and its output. Else it holds the level
    /// below, between its first input and its output, and `width` rows of
    /// atomic models.
    pub open spec fn level(
        width: usize,
        depth: usize,
        int_delay: u64,
        ext_delay: u64,
    ) -> NodeView<DEVStoneModel>
        decreases depth, 4int, 0nat, 0nat,
    {
        let component = ComponentView {
            model: two_in_one_out(numbered_name("coupled_"@, depth as nat)),
            t_last: 0,
            t_next: INFINITY,
        };
        if depth <= 1 {
            NodeView {
                component,
                body: BodyView::Coupled {
                    children: seq![atomic_node("inner_atomic"@, int_delay, ext_delay)],
                    eics: seq![inward(0, 0, 0)],
                    ics: Seq::empty(),
                    eocs: seq![outward(0, 0, 0)],
                },
            }
        } else {
            let p = HOmod::later_row(
                width,
                depth,
                int_delay,
                ext_delay,
                width as nat,
                row_len(width as int, width as int) as nat,
            );
            NodeView {
                component,
                body: BodyView::Coupled {
                    children: p.children,
                    eics: p.eics,
                    ics: p.ics,
                    eocs: seq![outward(0, 0, 0)],
                },
            }
        }
    }

    /// The whole model: a seeder that feeds both inputs of the outermost level.
    pub open spec fn model(
        width: usize,
        depth: usize,
        int_delay: u64,
        ext_delay: u64,
    ) -> NodeView<DEVStoneModel> {
        NodeView {
            component: ComponentView {
                model: ModelView { name: "HOmod"@, inputs: Seq::empty(), outputs: Seq::empty() },
                t_last: 0,
                t_next: INFINITY,
            },
            body: BodyView::Coupled {
                children: seq![seeder_node("seeder"@), HOmod::level(
                    width,
                    depth,
                    int_delay,
                    ext_delay,
                )],
                eics: Seq::empty(),
                ics: seq![across(0, 0, 1, 0), across(0, 0, 1, 1)],
                eocs: Seq::empty(),
            },
        }
    }

    /// Builds the model of the given width and depth, with its seeder.
    pub fn create(
        width: usize,
        depth: usize,
        int_delay: u64,
        ext_delay: u64,
    ) -> (coupled: Coupled<DEVStoneModel>)
        requires
            1 <= width < usize::MAX,
            depth >= 1,
        ensures
            coupled@.wf(),
            coupled@ == HOmod::model(width, depth, int_delay, ext_delay),
    {
        let mut coupled: Coupled<DEVStoneModel> = Coupled::new("HOmod");
        let homod = HOmod::new(width, depth, int_delay, ext_delay);
        proof {
            lemma_seeder_name(depth as nat);
            lemma_find_component(coupled@.children(), "seeder"@);
        }
        coupled.add_component(seeder("seeder"));
        proof {
            lemma_find_component(coupled@.children(), numbered_name("coupled_"@, depth as nat));
        }
        coupled.add_component(Subcomponent::Coupled(homod.coupled));
        assert(coupled@.children() =~= HOmod::model(width, depth, int_delay, ext_delay).children());
        coupled.connect_ic(
            Coupling {
                to: Endpoint { component: Some(1), port: 0 },
                from: Endpoint { component: Some(0), port: 0 },
            },
        );
        assert(coupled@.ics() =~= seq![across(0, 0, 1, 0)]);
        coupled.connect_ic(
            Coupling {
                to: Endpoint { component: Some(1), port: 1 },
                from: Endpoint { component: Some(0), port: 0 },
            },
        );
        assert(coupled@.ics() =~= seq![across(0, 0, 1, 0), across(0, 0, 1, 1)]);
        coupled
    }

    /// Adds the atomic model at place `i` of row `layer` to a level under
    /// construction and returns its position among the subcomponents.
    fn add_atomic(
        coupled: &mut Coupled<DEVStoneModel>,
        depth: usize,
        int_delay: u64,
        ext_delay: u64,
        layer: usize,
        i: usize,
    ) -> (idx:
        usize)
        requires
            old(coupled)@.wf(),
            old(coupled)@.is_coupled(),
            old(coupled)@.children().len() >= 1,
            old(coupled)@.children()[0].component.model.name == numbered_name(
                "coupled_"@,
                (depth - 1) as nat,
            ),
            depth >= 2,
            forall|j: int|
                1 <= j < old(coupled)@.children().len() ==> placed_before(
                    #[trigger] old(coupled)@.children()[j],
                    layer as nat,
                    i as nat,
                    int_delay,
                    ext_delay,
                ),
        ensures
            final(coupled)@.wf(),
            idx == old(coupled)@.children().len(),
            final(coupled)@ == (NodeView {
                component: old(coupled)@.component,
                body: BodyView::Coupled {
                    children: old(coupled)@.children().push(row_atomic(
                        layer as nat,
                        i as nat,
                        int_delay,
                        ext_delay,
                    )),
                    eics: old(coupled)@.eics(),
                    ics: old(coupled)@.ics(),
                    eocs: old(coupled)@.eocs(),
                },
            }),
            forall|c: int|
                0 <= c < old(coupled)@.eics().len() ==> (#[trigger] old(
                    coupled,
                )@.eics()[c]).to.component->Some_0 < idx,
            forall|c: int|
                0 <= c < old(coupled)@.ics().len() ==> (#[trigger] old(
                    coupled,
                )@.ics()[c]).from.component->Some_0 < idx,
    {
        let name = indexed("atomic(", layer, i);
        let idx = coupled.n_components();
        proof {
            let before = coupled@;
            lemma_find_component(before.children(), name@);
            lemma_row_names(layer as nat, i as nat, (depth - 1) as nat);
            assert forall|j: int| 0 <= j < before.children().len() implies (
            #[trigger] before.children()[j]).component.model.name != name@ by {
                if j > 0 {
                    assert(placed_before(
                        before.children()[j],
                        layer as nat,
                        i as nat,
                        int_delay,
                        ext_delay,
                    ));
                    let (a, b) = choose|a: nat, b: nat|
                        before.children()[j] == #[trigger] row_atomic(
                            a,
                            b,
                            int_delay,
                            ext_delay,
                        ) && (a < layer || (a
                            == layer && b < i));
                    lemma_indexed_names_differ("atomic("@, a, b, layer as nat, i as nat);
                }
            }
            assert forall|c: int| 0 <= c < before.eics().len() implies (
            #[trigger] before.eics()[c]).to.component->Some_0 < idx by {
                assert(coupling_valid(before.component.model, before.children(), before.eics()[c]));
            }
            assert forall|c: int| 0 <= c < before.ics().len() implies (
            #[trigger] before.ics()[c]).from.component->Some_0 < idx by {
                assert(coupling_valid(before.component.model, before.children(), before.ics()[c]));
            }
        }
        coupled.add_component(atomic(name.as_str(), int_delay, ext_delay));
        idx
    }

    /// Builds one level of the model and everything below it.
    pub fn new(width: usize, depth: usize, int_delay: u64, ext_delay: u64) -> (homod: HOmod)
        requires
            1 <= width < usize::MAX,
            depth >= 1,
        ensures
            homod.coupled@.wf(),
            homod.coupled@ == HOmod::level(width, depth, int_delay, ext_delay),
        decreases depth,
    {
        let name = numbered("coupled_", depth);
        let mut coupled: Coupled<DEVStoneModel> = Coupled::new(name.as_str());
        proof {
            super::ho::lemma_port_names();
        }
        let _ = coupled.add_in_port("input_1", Kind::Count);
        proof {
            lemma_find_port(coupled@.component.model.inputs, "input_2"@);
        }
        let _ = coupled.add_in_port("input_2", Kind::Count);
        let _ = coupled.add_out_port("output", Kind::Count);
        let ghost component = ComponentView {
            model: two_in_one_out(numbered_name("coupled_"@, depth as nat)),
            t_last: 0,
            t_next: INFINITY,
        };
        assert(coupled@.component.model.inputs =~= component.model.inputs);
        assert(coupled@.component.model.outputs =~= component.model.outputs);
        assert(coupled@.children() =~= Seq::empty());
        if depth == 1 {
            proof {
                lemma_find_component(coupled@.children(), "inner_atomic"@);
            }
            coupled.add_component(atomic("inner_atomic", int_delay, ext_delay));
            coupled.connect_eic(
                Coupling {
                    to: Endpoint { component: Some(0), port: 0 },
                    from: Endpoint { component: None, port: 0 },
                },
            );
            coupled.connect_eoc(
                Coupling {
                    to: Endpoint { component: None, port: 0 },
                    from: Endpoint { component: Some(0), port: 0 },
                },
            );
            assert(coupled@.children() =~= HOmod::level(
                width,
                depth,
                int_delay,
                ext_delay,
            ).children());
            assert(coupled@.eics() =~= HOmod::level(width, depth, int_delay, ext_delay).eics());
            assert(coupled@.eocs() =~= HOmod::level(width, depth, int_delay, ext_delay).eocs());
            return HOmod { coupled };
        }
        let below = HOmod::new(width, depth - 1, int_delay, ext_delay);
        proof {
            lemma_find_component(
                coupled@.children(),
                numbered_name("coupled_"@, (depth - 1) as nat),
            );
        }
        coupled.add_component(Subcomponent::Coupled(below.coupled));
        coupled.connect_eic(
            Coupling {
                to: Endpoint { component: Some(0), port: 0 },
                from: Endpoint { component: None, port: 0 },
            },
        );
        coupled.connect_eoc(
            Coupling {
                to: Endpoint { component: None, port: 0 },
                from: Endpoint { component: Some(0), port: 0 },
            },
        );
        let ghost below_view = HOmod::level(width, (depth - 1) as usize, int_delay, ext_delay);
        assert(coupled@.children() =~= seq![below_view]);
        assert(coupled@.eics() =~= seq![inward(0, 0, 0)]);
        assert(coupled@.eocs() =~= seq![outward(0, 0, 0)]);
        // The first row.
        let mut i: usize = 1;
        while i < width
            invariant
                1 <= i <= width < usize::MAX,
                depth >= 2,
                below_view == HOmod::level(width, (depth - 1) as usize, int_delay, ext_delay),
                coupled@.wf(),
                coupled@.is_coupled(),
                coupled@.component == component,
                component.model == two_in_one_out(numbered_name("coupled_"@, depth as nat)),
                coupled@.children() == HOmod::first_row(
                    width,
                    depth,
                    int_delay,
                    ext_delay,
                    (i - 1) as nat,
                ).children,
                coupled@.eics() == HOmod::first_row(
                    width,
                    depth,
                    int_delay,
                    ext_delay,
                    (i - 1) as nat,
                ).eics,
                coupled@.ics() == HOmod::first_row(
                    width,
                    depth,
                    int_delay,
                    ext_delay,
                    (i - 1) as nat,
                ).ics,
                coupled@.eocs() == seq![outward(0, 0, 0)],
                coupled@.children().len() == i,
                coupled@.children()[0] == below_view,
                forall|j: int|
                    1 <= j < coupled@.children().len() ==> placed_before(
                        #[trigger] coupled@.children()[j],
                        1,
                        i as nat,
                        int_delay,
                        ext_delay,
                    ),
            decreases width - i,
        {
            let idx = HOmod::add_atomic(&mut coupled, depth, int_delay, ext_delay, 1, i);
            let ghost row = coupled@.children();
            assert(row[idx as int] == atomic_node(
                row[idx as int].component.model.name,
                int_delay,
                ext_delay,
            ));
            proof {
                assert forall|j: int| 1 <= j < row.len() implies placed_before(
                    #[trigger] row[j],
                    1,
                    (i + 1) as nat,
                    int_delay,
                    ext_delay,
                ) by {
                    if j < idx {
                        let (a, b) = choose|a: nat, b: nat|
                            row[j] == #[trigger] row_atomic(
                                a,
                                b,
                                int_delay,
                                ext_delay,
                            ) && (a < 1 || (a == 1 && b < i));
                        assert(row[j] == row_atomic(
                            a,
                            b,
                            int_delay,
                            ext_delay,
                        ) && (a < 1 || (a == 1 && b < i + 1)));
                    } else {
                        assert(row[j] == row_atomic(1, i as nat, int_delay, ext_delay));
                    }
                }
            }
            coupled.connect_eic(
                Coupling {
                    to: Endpoint { component: Some(idx), port: 0 },
                    from: Endpoint { component: None, port: 1 },
                },
            );
            coupled.connect_ic(
                Coupling {
                    to: Endpoint { component: Some(0), port: 1 },
                    from: Endpoint { component: Some(idx), port: 0 },
                },
            );
            assert(coupled@.children() == row);
            i = i + 1;
        }
        // The second row.
        let mut i: usize = 1;
        while i < width
            invariant
                1 <= i <= width < usize::MAX,
                depth >= 2,
                below_view == HOmod::level(width, (depth - 1) as usize, int_delay, ext_delay),
                coupled@.wf(),
                coupled@.is_coupled(),
                coupled@.component == component,
                component.model == two_in_one_out(numbered_name("coupled_"@, depth as nat)),
                coupled@.children() == HOmod::second_row(
                    width,
                    depth,
                    int_delay,
                    ext_delay,
                    (i - 1) as nat,
                ).children,
                coupled@.eics() == HOmod::second_row(
                    width,
                    depth,
                    int_delay,
                    ext_delay,
                    (i - 1) as nat,
                ).eics,
                coupled@.ics() == HOmod::second_row(
                    width,
                    depth,
                    int_delay,
                    ext_delay,
                    (i - 1) as nat,
                ).ics,
                coupled@.eocs() == seq![outward(0, 0, 0)],
                coupled@.children().len() == width - 1 + i,
                coupled@.children()[0] == below_view,
                forall|j: int|
                    1 <= j < coupled@.children().len() ==> placed_before(
                        #[trigger] coupled@.children()[j],
                        2,
                        i as nat,
                        int_delay,
                        ext_delay,
                    ),
            decreases width - i,
        {
            let ghost old_ics = coupled@.ics();
            let idx = HOmod::add_atomic(&mut coupled, depth, int_delay, ext_delay, 2, i);
            let ghost row = coupled@.children();
            assert(row[idx as int] == atomic_node(
                row[idx as int].component.model.name,
                int_delay,
                ext_delay,
            ));
            proof {
                assert forall|j: int| 1 <= j < row.len() implies placed_before(
                    #[trigger] row[j],
                    2,
                    (i + 1) as nat,
                    int_delay,
                    ext_delay,
                ) by {
                    if j < idx {
                        let (a, b) = choose|a: nat, b: nat|
                            row[j] == #[trigger] row_atomic(
                                a,
                                b,
                                int_delay,
                                ext_delay,
                            ) && (a < 2 || (a == 2 && b < i));
                        assert(row[j] == row_atomic(
                            a,
                            b,
                            int_delay,
                            ext_delay,
                        ) && (a < 2 || (a == 2 && b < i + 1)));
                    } else {
                        assert(row[j] == row_atomic(2, i as nat, int_delay, ext_delay));
                    }
                }
            }
            if i == 1 {
                coupled.connect_eic(
                    Coupling {
                        to: Endpoint { component: Some(idx), port: 0 },
                        from: Endpoint { component: None, port: 1 },
                    },
                );
            }
            let ghost eics = coupled@.eics();
            assert(coupled@.ics() =~= old_ics + Seq::new(
                0,
                |q: int| across(idx, 0, (q + 1) as usize, 0),
            ));
            let mut p: usize = 1;
            while p < width
                invariant
                    1 <= p <= width < usize::MAX,
                    coupled@.wf(),
                    coupled@.is_coupled(),
                    coupled@.component == component,
                    component.model == two_in_one_out(numbered_name("coupled_"@, depth as nat)),
                component.model == two_in_one_out(numbered_name("coupled_"@, depth as nat)),
                    coupled@.children() == row,
                    coupled@.eics() == eics,
                    coupled@.eocs() == seq![outward(0, 0, 0)],
                    row.len() == idx + 1,
                    idx >= width - 1,
                    forall|j: int|
                        1 <= j < row.len() ==> placed_before(
                            #[trigger] row[j],
                            2,
                            (i + 1) as nat,
                            int_delay,
                            ext_delay,
                        ),
                    forall|c: int|
                        0 <= c < old_ics.len() ==> (#[trigger] old_ics[c]).from.component->Some_0
                            < idx,
                    coupled@.ics() == old_ics + Seq::new(
                        (p - 1) as nat,
                        |q: int| across(idx, 0, (q + 1) as usize, 0),
                    ),
                decreases width - p,
            {
                proof {
                    assert(placed_before(row[p as int], 2, (i + 1) as nat, int_delay, ext_delay));
                    let c = across(idx, 0, p, 0);
                    assert forall|k: int| 0 <= k < coupled@.ics().len() implies coupled@.ics()[k]
                        != c by {
                        if k < old_ics.len() {
                            assert(coupled@.ics()[k] == old_ics[k]);
                        }
                    }
                }
                coupled.connect_ic(
                    Coupling {
                        to: Endpoint { component: Some(p), port: 0 },
                        from: Endpoint { component: Some(idx), port: 0 },
                    },
                );
                assert(coupled@.ics() =~= old_ics + Seq::new(
                    p as nat,
                    |q: int| across(idx, 0, (q + 1) as usize, 0),
                ));
                p = p + 1;
            }
            i = i + 1;
        }
        if width < 3 {
            return HOmod { coupled };
        }
        // The rest of the rows.
        let mut layer: usize = 3;
        let mut prev_start: usize = width;
        let mut prev_len: usize = width - 1;
        proof {
            assert(row_start(width as int, 2) == width) by {
                assert(row_start(width as int, 1) == 1);
            }
        }
        while layer <= width
            invariant
                3 <= layer <= width + 1,
                width < usize::MAX,
                depth >= 2,
                below_view == HOmod::level(width, (depth - 1) as usize, int_delay, ext_delay),
                coupled@.wf(),
                coupled@.is_coupled(),
                coupled@.component == component,
                component.model == two_in_one_out(numbered_name("coupled_"@, depth as nat)),
                coupled@.children() == HOmod::later_row(
                    width,
                    depth,
                    int_delay,
                    ext_delay,
                    (layer - 1) as nat,
                    row_len(width as int, layer - 1) as nat,
                ).children,
                coupled@.eics() == HOmod::later_row(
                    width,
                    depth,
                    int_delay,
                    ext_delay,
                    (layer - 1) as nat,
                    row_len(width as int, layer - 1) as nat,
                ).eics,
                coupled@.ics() == HOmod::later_row(
                    width,
                    depth,
                    int_delay,
                    ext_delay,
                    (layer - 1) as nat,
                    row_len(width as int, layer - 1) as nat,
                ).ics,
                coupled@.eocs() == seq![outward(0, 0, 0)],
                coupled@.children()[0] == below_view,
                prev_start == row_start(width as int, layer - 1),
                prev_len == row_len(width as int, layer - 1),
                prev_len >= 1,
                prev_start >= 1,
                coupled@.children().len() == prev_start + prev_len,
                forall|j: int|
                    1 <= j < coupled@.children().len() ==> placed_before(
                        #[trigger] coupled@.children()[j],
                        layer as nat,
                        1,
                        int_delay,
                        ext_delay,
                    ),
            decreases width + 1 - layer,
        {
            let cur_start = coupled.n_components();
            let mut i: usize = 1;
            while i < prev_len
                invariant
                    1 <= i <= prev_len,
                    3 <= layer <= width < usize::MAX,
                    depth >= 2,
                    below_view == HOmod::level(width, (depth - 1) as usize, int_delay, ext_delay),
                    coupled@.wf(),
                    coupled@.is_coupled(),
                    coupled@.component == component,
                    component.model == two_in_one_out(numbered_name("coupled_"@, depth as nat)),
                component.model == two_in_one_out(numbered_name("coupled_"@, depth as nat)),
                    coupled@.children() == HOmod::later_row(
                        width,
                        depth,
                        int_delay,
                        ext_delay,
                        layer as nat,
                        (i - 1) as nat,
                    ).children,
                    coupled@.eics() == HOmod::later_row(
                        width,
                        depth,
                        int_delay,
                        ext_delay,
                        layer as nat,
                        (i - 1) as nat,
                    ).eics,
                    coupled@.ics() == HOmod::later_row(
                        width,
                        depth,
                        int_delay,
                        ext_delay,
                        layer as nat,
                        (i - 1) as nat,
                    ).ics,
                    coupled@.eocs() == seq![outward(0, 0, 0)],
                    coupled@.children()[0] == below_view,
                    prev_start == row_start(width as int, layer - 1),
                    prev_start >= 1,
                    cur_start == prev_start + prev_len,
                    coupled@.children().len() == cur_start + i - 1,
                    forall|j: int|
                        1 <= j < coupled@.children().len() ==> placed_before(
                            #[trigger] coupled@.children()[j],
                            layer as nat,
                            i as nat,
                            int_delay,
                            ext_delay,
                        ),
                decreases prev_len - i,
            {
                let idx = HOmod::add_atomic(&mut coupled, depth, int_delay, ext_delay, layer, i);
                let ghost row = coupled@.children();
                assert(row[idx as int] == atomic_node(
                    row[idx as int].component.model.name,
                    int_delay,
                    ext_delay,
                ));
                proof {
                    assert forall|j: int| 1 <= j < row.len() implies placed_before(
                        #[trigger] row[j],
                        layer as nat,
                        (i + 1) as nat,
                        int_delay,
                        ext_delay,
                    ) by {
                        if j < idx {
                            let (a, b) = choose|a: nat, b: nat|
                                row[j] == #[trigger] row_atomic(
                                    a,
                                    b,
                                    int_delay,
                                    ext_delay,
                                ) && (a < layer || (a == layer
                                    && b < i));
                            assert(row[j] == row_atomic(
                                a,
                                b,
                                int_delay,
                                ext_delay,
                            ) && (a < layer || (a == layer && b < i
                                + 1)));
                        } else {
                            assert(row[j] == row_atomic(
                                layer as nat,
                                i as nat,
                                int_delay,
                                ext_delay,
                            ));
                        }
                    }
                }
                if i == 1 {
                    coupled.connect_eic(
                        Coupling {
                            to: Endpoint { component: Some(idx), port: 0 },
                            from: Endpoint { component: None, port: 1 },
                        },
                    );
                }
                proof {
                    assert(placed_before(
                        row[prev_start + i],
                        layer as nat,
                        (i + 1) as nat,
                        int_delay,
                        ext_delay,
                    ));
                }
                coupled.connect_ic(
                    Coupling {
                        to: Endpoint { component: Some(prev_start + i), port: 0 },
                        from: Endpoint { component: Some(idx), port: 0 },
                    },
                );
                assert(coupled@.children() == row);
                i = i + 1;
            }
            proof {
                let row = coupled@.children();
                assert forall|j: int| 1 <= j < row.len() implies placed_before(
                    #[trigger] row[j],
                    (layer + 1) as nat,
                    1,
                    int_delay,
                    ext_delay,
                ) by {
                    let (a, b) = choose|a: nat, b: nat|
                        row[j] == #[trigger] row_atomic(
                            a,
                            b,
                            int_delay,
                            ext_delay,
                        ) && (a < layer || (a == layer && b
                            < prev_len));
                    assert(row[j] == row_atomic(
                        a,
                        b,
                        int_delay,
                        ext_delay,
                    ) && (a < layer + 1 || (a == layer + 1 && b
                        < 1)));
                }
            }
            prev_start = cur_start;
            prev_len = prev_len - 1;
            layer = layer + 1;
        }
        HOmod { coupled }
    }
}

/// The subcomponents are the level `below` and, row after row, the atomic
/// models of the rows before `layer` and the first `k` of that row: the one
/// at place `b` of row `a` stands at position `row_start(width, a) + b - 1`.
pub open spec fn rows_placed(
    children: Seq<NodeView<DEVStoneModel>>,
    width: int,
    layer: nat,
    k: nat,
    below: NodeView<DEVStoneModel>,
    int_delay: u64,
    ext_delay: u64,
) -> bool {
    &&& children.len() == row_start(width, layer as int) + k
    &&& children[0] == below
    &&& forall|a: nat, b: nat|
        (1 <= a < layer && 1 <= b <= row_len(width, a as int)) || (a == layer && 1 <= b <= k)
            ==> children[row_start(width, a as int) + b - 1] == #[trigger] row_atomic(
            a,
            b,
            int_delay,
            ext_delay,
        )
}

/// The second input of the level feeds the first `n` atomic models of the
/// first row and the first atomic model of each of the rows from the second
/// to row `layer`; the first input feeds the level below.
pub open spec fn rows_fed(eics: Seq<Coupling>, width: int, n: nat, layer: nat) -> bool {
    &&& eics.len() == n + layer
    &&& eics[0] == inward(0, 0, 0)
    &&& forall|i: int| 1 <= i <= n ==> #[trigger] eics[i] == inward(1, i as usize, 0)
    &&& forall|a: int|
        2 <= a <= layer ==> #[trigger] eics[n + a - 1] == inward(
            1,
            row_start(width, a) as usize,
            0,
        )
}

/// The coupling by which the atomic model at place `b` of the first row
/// feeds the second input of the level below.
pub open spec fn feed_below(b: int) -> Coupling {
    across(b as usize, 0, 0, 1)
}

/// The coupling by which the atomic model at place `b` of the second row
/// feeds the one at place `q` of the first row.
pub open spec fn feed_first(width: int, b: int, q: int) -> Coupling {
    across((width + b - 1) as usize, 0, q as usize, 0)
}

/// The coupling by which the atomic model at place `b` of row `a`, a row
/// behind the second, feeds the one at place `b + 1` of the row before.
pub open spec fn feed_back(width: int, a: int, b: int) -> Coupling {
    across((row_start(width, a) + b - 1) as usize, 0, (row_start(width, a - 1) + b) as usize, 0)
}

/// The position among the couplings between subcomponents at which those
/// of a row begin: every atomic model of the second row has `width - 1` of
/// them, every other atomic model has one.
pub open spec fn feeds_start(width: int, layer: int) -> int
    decreases layer,
{
    if layer <= 1 {
        0
    } else if layer == 2 {
        width - 1
    } else if layer == 3 {
        (width - 1) + (width - 1) * (width - 1)
    } else {
        feeds_start(width, layer - 1) + row_len(width, layer - 1)
    }
}

/// The position of the coupling from place `b` of the second row to place
/// `q` of the first row.
pub open spec fn feed_first_at(width: int, b: int, q: int) -> int {
    (width - 1) + (b - 1) * (width - 1) + q - 1
}

/// The couplings between subcomponents are, row after row and place after
/// place, those of the rows before `layer` and of the first `k` atomic
/// models of that row.
pub open spec fn rows_coupled(ics: Seq<Coupling>, width: int, layer: nat, k: nat) -> bool {
    &&& ics.len() == feeds_start(width, layer as int) + (if layer == 2 {
        k * (width - 1)
    } else {
        k as int
    })
    &&& forall|b: int|
        1 <= b <= (if layer == 1 {
            k as int
        } else {
            width - 1
        }) ==> ics[b - 1] == #[trigger] feed_below(b)
    &&& forall|b: int, q: int|
        layer >= 2 && 1 <= b <= (if layer == 2 {
            k as int
        } else {
            width - 1
        }) && 1 <= q <= width - 1 ==> ics[feed_first_at(width, b, q)] == #[trigger] feed_first(
            width,
            b,
            q,
        )
    &&& forall|a: int, b: int|
        3 <= a && ((a < layer && 1 <= b <= row_len(width, a)) || (a == layer && 1 <= b <= k))
            ==> ics[feeds_start(width, a) + b - 1] == #[trigger] feed_back(width, a, b)
}

/// The couplings of an atomic model of the second row stand before those of
/// the atomic models behind it in the row.
pub proof fn lemma_feed_first_at(width: int, b: int, q: int, k: int)
    requires
        1 <= b <= k,
        1 <= q <= width - 1,
    ensures
        width - 1 <= feed_first_at(width, b, q) < (width - 1) + k * (width - 1),
        b < k ==> feed_first_at(width, b, q) < (width - 1) + (k - 1) * (width - 1),
        feed_first_at(width, k, q) == (width - 1) + (k - 1) * (width - 1) + q - 1,
        k * (width - 1) == (k - 1) * (width - 1) + (width - 1),
{
    assert(k * (width - 1) == (k - 1) * (width - 1) + (width - 1)) by (nonlinear_arith);
    assert(0 <= (b - 1) * (width - 1)) by (nonlinear_arith)
        requires
            1 <= b,
            1 <= width - 1,
    ;
    assert((b - 1) * (width - 1) + (width - 1) <= k * (width - 1)) by (nonlinear_arith)
        requires
            1 <= b <= k,
            1 <= width - 1,
    ;
    if b < k {
        assert((b - 1) * (width - 1) + (width - 1) <= (k - 1) * (width - 1)) by (nonlinear_arith)
            requires
                1 <= b <= k - 1,
                1 <= width - 1,
        ;
    }
}

/// The couplings of a row behind the second begin where those of the rows
/// before it end.
pub proof fn lemma_feeds_apart(width: int, a: int, layer: int)
    requires
        3 <= a < layer <= width + 1,
    ensures
        feeds_start(width, a) + row_len(width, a) <= feeds_start(width, layer),
        (width - 1) + (width - 1) * (width - 1) <= feeds_start(width, a),
    decreases layer,
{
    if a + 1 < layer {
        lemma_feeds_apart(width, a, layer - 1);
    }
    lemma_feeds_start(width, a);
}

/// The couplings of the rows behind the second stand behind those of the
/// first two rows.
pub proof fn lemma_feeds_start(width: int, layer: int)
    requires
        3 <= layer <= width + 1,
    ensures
        (width - 1) + (width - 1) * (width - 1) <= feeds_start(width, layer),
    decreases layer,
{
    if layer > 3 {
        lemma_feeds_start(width, layer - 1);
    }
}

/// A row begins behind the level below, and no row before it is longer than
/// the level is wide.
pub proof fn lemma_row_start(width: int, layer: int)
    requires
        1 <= width,
        1 <= layer <= width + 1,
    ensures
        1 <= row_start(width, layer) <= 1 + (layer - 1) * width,
    decreases layer,
{
    if layer > 1 {
        lemma_row_start(width, layer - 1);
        assert((layer - 2) * width + width == (layer - 1) * width) by (nonlinear_arith);
    }
}

/// A row ends where the rows behind it begin.
pub proof fn lemma_rows_apart(width: int, a: int, layer: int)
    requires
        1 <= a < layer <= width + 1,
    ensures
        row_start(width, a) + row_len(width, a) <= row_start(width, layer),
    decreases layer,
{
    if a + 1 < layer {
        lemma_rows_apart(width, a, layer - 1);
    }
}

/// The first row stands behind the level below, in the order of its places.
pub proof fn lemma_first_row(width: usize, depth: usize, int_delay: u64, ext_delay: u64, k: nat)
    requires
        depth > 1,
        1 <= width,
        k < width,
    ensures
        rows_placed(
            HOmod::first_row(width, depth, int_delay, ext_delay, k).children,
            width as int,
            1,
            k,
            HOmod::level(width, (depth - 1) as usize, int_delay, ext_delay),
            int_delay,
            ext_delay,
        ),
        rows_fed(HOmod::first_row(width, depth, int_delay, ext_delay, k).eics, width as int, k, 1),
        rows_coupled(
            HOmod::first_row(width, depth, int_delay, ext_delay, k).ics,
            width as int,
            1,
            k,
        ),
    decreases k,
{
    if k > 0 {
        lemma_first_row(width, depth, int_delay, ext_delay, (k - 1) as nat);
    }
}

/// The second row stands behind the first.
pub proof fn lemma_second_row(width: usize, depth: usize, int_delay: u64, ext_delay: u64, k: nat)
    requires
        depth > 1,
        1 <= width,
        k < width,
    ensures
        rows_placed(
            HOmod::second_row(width, depth, int_delay, ext_delay, k).children,
            width as int,
            2,
            k,
            HOmod::level(width, (depth - 1) as usize, int_delay, ext_delay),
            int_delay,
            ext_delay,
        ),
        rows_fed(
            HOmod::second_row(width, depth, int_delay, ext_delay, k).eics,
            width as int,
            (width - 1) as nat,
            if k == 0 {
                1
            } else {
                2
            },
        ),
        rows_coupled(
            HOmod::second_row(width, depth, int_delay, ext_delay, k).ics,
            width as int,
            2,
            k,
        ),
    decreases k,
{
    let w = width as int;
    assert(row_start(w, 1) == 1);
    assert(row_start(w, 2) == w);
    if k == 0 {
        lemma_first_row(width, depth, int_delay, ext_delay, (width - 1) as nat);
    } else {
        lemma_second_row(width, depth, int_delay, ext_delay, (k - 1) as nat);
        let p = HOmod::second_row(width, depth, int_delay, ext_delay, k);
        let q = HOmod::second_row(width, depth, int_delay, ext_delay, (k - 1) as nat);
        lemma_feed_first_at(w, k as int, 1, k as int);
        assert forall|b: int, r: int| 1 <= b <= k && 1 <= r <= w - 1 implies p.ics[feed_first_at(
            w,
            b,
            r,
        )] == #[trigger] feed_first(w, b, r) by {
            lemma_feed_first_at(w, b, r, k as int);
            if b < k {
                assert(q.ics[feed_first_at(w, b, r)] == feed_first(w, b, r));
            }
        }
        assert forall|b: int| 1 <= b <= w - 1 implies p.ics[b - 1] == #[trigger] feed_below(b) by {
            assert(q.ics[b - 1] == feed_below(b));
        }
    }
}

/// Every further row stands behind the row before it.
pub proof fn lemma_later_row(
    width: usize,
    depth: usize,
    int_delay: u64,
    ext_delay: u64,
    layer: nat,
    k: nat,
)
    requires
        depth > 1,
        3 <= layer <= width,
        k <= row_len(width as int, layer as int),
    ensures
        rows_placed(
            HOmod::later_row(width, depth, int_delay, ext_delay, layer, k).children,
            width as int,
            layer,
            k,
            HOmod::level(width, (depth - 1) as usize, int_delay, ext_delay),
            int_delay,
            ext_delay,
        ),
        rows_fed(
            HOmod::later_row(width, depth, int_delay, ext_delay, layer, k).eics,
            width as int,
            (width - 1) as nat,
            if k == 0 {
                (layer - 1) as nat
            } else {
                layer
            },
        ),
        rows_coupled(
            HOmod::later_row(width, depth, int_delay, ext_delay, layer, k).ics,
            width as int,
            layer,
            k,
        ),
    decreases layer, k,
{
    let w = width as int;
    let p = HOmod::later_row(width, depth, int_delay, ext_delay, layer, k);
    assert(row_start(w, layer as int) == row_start(w, layer - 1) + row_len(w, layer - 1));
    if k > 0 {
        lemma_later_row(width, depth, int_delay, ext_delay, layer, (k - 1) as nat);
        let q = HOmod::later_row(width, depth, int_delay, ext_delay, layer, (k - 1) as nat);
        lemma_row_start(w, layer as int);
        lemma_feeds_start(w, layer as int);
        assert(p.children == q.children.push(row_atomic(layer, k, int_delay, ext_delay)));
        assert forall|b: int| 1 <= b <= w - 1 implies p.ics[b - 1] == #[trigger] feed_below(b) by {
            assert(q.ics[b - 1] == feed_below(b));
        }
        assert forall|b: int, r: int|
            1 <= b <= w - 1 && 1 <= r <= w - 1 implies p.ics[feed_first_at(w, b, r)]
            == #[trigger] feed_first(w, b, r) by {
            lemma_feed_first_at(w, b, r, w - 1);
            assert(q.ics[feed_first_at(w, b, r)] == feed_first(w, b, r));
        }
        assert forall|a: int, b: int|
            3 <= a && ((a < layer && 1 <= b <= row_len(w, a)) || (a == layer && 1 <= b
                <= k)) implies p.ics[feeds_start(w, a) + b - 1] == #[trigger] feed_back(
            w,
            a,
            b,
        ) by {
            lemma_feeds_start(w, a);
            if a < layer {
                lemma_feeds_apart(w, a, layer as int);
            }
            if a < layer || b < k {
                assert(q.ics[feeds_start(w, a) + b - 1] == feed_back(w, a, b));
            }
        }
        assert forall|a: nat, b: nat|
            (1 <= a < layer && 1 <= b <= row_len(w, a as int)) || (a == layer && 1 <= b
                <= k) implies p.children[row_start(w, a as int) + b - 1] == #[trigger] row_atomic(
            a,
            b,
            int_delay,
            ext_delay,
        ) by {
            lemma_row_start(w, a as int);
            if a < layer {
                lemma_rows_apart(w, a as int, layer as int);
            }
            if a < layer || b < k {
                assert(q.children[row_start(w, a as int) + b - 1] == row_atomic(
                    a,
                    b,
                    int_delay,
                    ext_delay,
                ));
            }
        }
    } else if layer == 3 {
        lemma_second_row(width, depth, int_delay, ext_delay, (width - 1) as nat);
        assert(row_start(w, 1) == 1);
        assert(row_start(w, 2) == w);
        assert(p == HOmod::later_row(width, depth, int_delay, ext_delay, 2, (width - 1) as nat));
        assert(p == HOmod::second_row(width, depth, int_delay, ext_delay, (width - 1) as nat));
        assert(feeds_start(w, 2) == w - 1);
    } else {
        lemma_later_row(
            width,
            depth,
            int_delay,
            ext_delay,
            (layer - 1) as nat,
            row_len(w, layer - 1) as nat,
        );
    }
}

/// A level deeper than one holds the level below and, behind it, its rows
/// one after the other; its second input feeds every atomic model of the
/// first row and the first atomic model of every other row.
pub proof fn law_rows(width: usize, depth: usize, int_delay: u64, ext_delay: u64)
    requires
        depth > 1,
        1 <= width < usize::MAX,
    ensures
        rows_placed(
            HOmod::level(width, depth, int_delay, ext_delay).children(),
            width as int,
            width as nat,
            row_len(width as int, width as int) as nat,
            HOmod::level(width, (depth - 1) as usize, int_delay, ext_delay),
            int_delay,
            ext_delay,
        ),
        width >= 2 ==> rows_fed(
            HOmod::level(width, depth, int_delay, ext_delay).eics(),
            width as int,
            (width - 1) as nat,
            width as nat,
        ),
        width == 1 ==> HOmod::level(width, depth, int_delay, ext_delay).eics() == seq![
            inward(0, 0, 0),
        ],
        rows_coupled(
            HOmod::level(width, depth, int_delay, ext_delay).ics(),
            width as int,
            width as nat,
            row_len(width as int, width as int) as nat,
        ),
{
    if width >= 3 {
        lemma_later_row(width, depth, int_delay, ext_delay, width as nat, 1);
    } else {
        lemma_second_row(width, depth, int_delay, ext_delay, (width - 1) as nat);
        lemma_first_row(width, depth, int_delay, ext_delay, 0);
    }
}

} // verus!
