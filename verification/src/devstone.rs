//! The DEVStone benchmark models: trees of coupled models of a given width
//! and depth, filled with atomic models that count what happens to them.
use crate::modeling::component::ComponentView;
use crate::modeling::coupled::{
    AtomicSimulator, BodyView, Coupling, Endpoint, NodeView, Subcomponent,
};
use crate::time::INFINITY;
use vstd::prelude::*;

pub mod atomic;
pub mod hi;
pub mod ho;
pub mod homod;
pub mod li;
pub mod model;
pub mod probe;
pub mod seeder;

pub use atomic::DEVStoneAtomic;
pub use hi::HI;
pub use ho::HO;
pub use homod::HOmod;
pub use li::LI;
pub use model::DEVStoneModel;
pub use probe::{probe_coupled, probe_node};
pub use seeder::DEVStoneSeeder;

verus! {

/// What a DEVStone model consists of and what happened in it.
#[derive(Debug, Default, Copy, Clone)]
pub struct TestProbe {
    pub n_atomics: usize,
    pub n_eics: usize,
    pub n_ics: usize,
    pub n_eocs: usize,
    pub n_internals: usize,
    pub n_externals: usize,
    pub n_events: usize,
}

/// A counting atomic model that has not been started, as a node of a hierarchy.
pub open spec fn atomic_node(name: Seq<char>, int_delay: u64, ext_delay: u64) -> NodeView<
    DEVStoneModel,
> {
    NodeView {
        component: ComponentView {
            model: DEVStoneAtomic::ports(name),
            t_last: 0,
            t_next: INFINITY,
        },
        body: BodyView::Atomic(
            DEVStoneModel::Atomic(DEVStoneAtomic::initial(int_delay, ext_delay)),
        ),
    }
}

/// A seeder that has not been started, as a node of a hierarchy.
pub open spec fn seeder_node(name: Seq<char>) -> NodeView<DEVStoneModel> {
    NodeView {
        component: ComponentView {
            model: DEVStoneSeeder::ports(name),
            t_last: 0,
            t_next: INFINITY,
        },
        body: BodyView::Atomic(DEVStoneModel::Seeder(DEVStoneSeeder::initial())),
    }
}

/// The coupling from input `from` of a coupled model to input `port` of its subcomponent `to`.
pub open spec fn inward(from: usize, to: usize, port: usize) -> Coupling {
    Coupling {
        to: Endpoint { component: Some(to), port },
        from: Endpoint { component: None, port: from },
    }
}

/// The coupling from output `port` of the subcomponent `from` of a coupled
/// model to output `to` of the model.
pub open spec fn outward(from: usize, port: usize, to: usize) -> Coupling {
    Coupling {
        to: Endpoint { component: None, port: to },
        from: Endpoint { component: Some(from), port },
    }
}

/// The coupling from output `port_from` of the subcomponent `from` to input
/// `port_to` of the subcomponent `to`.
pub open spec fn across(from: usize, port_from: usize, to: usize, port_to: usize) -> Coupling {
    Coupling {
        to: Endpoint { component: Some(to), port: port_to },
        from: Endpoint { component: Some(from), port: port_from },
    }
}

/// Creates a counting atomic model as a subcomponent, with its delays in milliseconds.
pub fn atomic(name: &str, int_delay: u64, ext_delay: u64) -> (node: Subcomponent<DEVStoneModel>)
    ensures
        node@.wf(),
        node@ == atomic_node(name@, int_delay, ext_delay),
{
    let a = DEVStoneAtomic::new(name, int_delay, ext_delay);
    Subcomponent::Atomic(AtomicSimulator::new(a.component, DEVStoneModel::Atomic(a.model)))
}

/// Creates a seeder as a subcomponent.
pub fn seeder(name: &str) -> (node: Subcomponent<DEVStoneModel>)
    ensures
        node@.wf(),
        node@ == seeder_node(name@),
{
    let s = DEVStoneSeeder::new(name);
    Subcomponent::Atomic(AtomicSimulator::new(s.component, DEVStoneModel::Seeder(s.model)))
}

/// The names that the models of the benchmark bear never collide.
pub proof fn lemma_names(n: nat, m: nat)
    ensures
        "seeder"@ != crate::text::numbered_name("coupled_"@, n),
        "inner_atomic"@ != crate::text::numbered_name("coupled_"@, n),
        crate::text::numbered_name("atomic_"@, m) != crate::text::numbered_name("coupled_"@, n),
{
    reveal_strlit("seeder");
    reveal_strlit("inner_atomic");
    reveal_strlit("coupled_");
    reveal_strlit("atomic_");
    let none = Seq::<char>::empty();
    assert("seeder"@ + none =~= "seeder"@);
    assert("inner_atomic"@ + none =~= "inner_atomic"@);
    crate::text::lemma_first_characters_differ(
        "seeder"@,
        "coupled_"@,
        none,
        crate::text::decimal(n),
    );
    crate::text::lemma_first_characters_differ(
        "inner_atomic"@,
        "coupled_"@,
        none,
        crate::text::decimal(n),
    );
    crate::text::lemma_first_characters_differ(
        "atomic_"@,
        "coupled_"@,
        crate::text::decimal(m),
        crate::text::decimal(n),
    );
}

} // verus!
