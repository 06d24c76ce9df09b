//! Events: what enters and leaves a model under real-time simulation.
use vstd::prelude::*;
use vstd::string::StringExecFns;

verus! {

/// An event is a pair of a port name and the text of a value.
#[derive(Clone, Debug, PartialEq, Eq, Hash, Default)]
pub struct Event(String, String);

impl Event {
    /// The name of the port of the event.
    pub closed spec fn port_name(&self) -> Seq<char> {
        self.0@
    }

    /// The text of the value of the event.
    pub closed spec fn value_text(&self) -> Seq<char> {
        self.1@
    }

    /// Creates a new event from a port name and the text of a value.
    pub fn new(port: &str, value: &str) -> (e: Event)
        ensures
            e.port_name() == port@,
            e.value_text() == value@,
    {
        Event(port.to_owned(), value.to_owned())
    }

    /// Returns the name of the port of the event.
    pub fn port(&self) -> (port: &str)
        ensures
            port@ == self.port_name(),
    {
        self.0.as_str()
    }

    /// Returns the text of the value of the event.
    pub fn value(&self) -> (value: &str)
        ensures
            value@ == self.value_text(),
    {
        self.1.as_str()
    }

    /// Returns the event written as `(port, value)`.
    pub fn to_string(&self) -> (text: String)
        ensures
            text@ == "("@ + self.port_name() + ", "@ + self.value_text() + ")"@,
    {
        let mut text = String::from_str("(");
        text.append(self.0.as_str());
        text.append(", ");
        text.append(self.1.as_str());
        text.append(")");
        text
    }
}

} // verus!
