//! Building blocks of DEVS models: ports, components, atomic and coupled models.
pub mod atomic;
pub mod component;
pub mod coupled;
pub mod model;
pub mod port;
pub mod value;

pub use atomic::Atomic;
pub use component::{Component, ComponentView, Error};
pub use coupled::{
    AtomicSimulator, BodyView, Coupled, Coupling, Endpoint, NodeView, Subcomponent, TopologyError,
};
pub use model::{Layout, Model, ModelView};
pub use port::{InPort, OutPort, Port, PortVal, PortView};
pub use value::{Kind, Value};
