//! Ports: named, typed bags of messages.
use crate::DynRef;
use vstd::prelude::*;

verus! {

/// A type of messages.
///
/// Messages are copied from port to port, carry a tag that tells which ports
/// may hold them, and can be written as text and read from text.
pub trait PortVal: Copy + DynRef + Send + Sync {
    /// The tags of the element types that ports of these messages can have.
    type Kind: Copy + Send + Sync;

    /// The element type that the message belongs to.
    spec fn kind_of(self) -> Self::Kind;

    /// The message as text.
    spec fn text(self) -> Seq<char>;

    /// The message of the given element type that a text stands for, if any.
    spec fn parsed(kind: Self::Kind, text: Seq<char>) -> Option<Self>;

    /// Returns the element type of the message.
    fn kind(&self) -> (k: Self::Kind)
        ensures
            k == self.kind_of(),
    ;

    /// Returns `true` if both element types are the same.
    fn same_kind(a: &Self::Kind, b: &Self::Kind) -> (same: bool)
        ensures
            same == (*a == *b),
    ;

    /// Writes the message as text.
    fn to_text(&self) -> (text: String)
        ensures
            text@ == self.text(),
    ;

    /// Reads a text as a message of the given element type.
    fn parse(kind: Self::Kind, text: &str) -> (value: Option<Self>)
        ensures
            value == Self::parsed(kind, text@),
            value is Some ==> value->Some_0.kind_of() == kind,
    ;
}

/// Every message of `values` belongs to `kind`.
pub open spec fn all_of_kind<M: PortVal>(values: Seq<M>, kind: M::Kind) -> bool {
    forall|i: int| 0 <= i < values.len() ==> (#[trigger] values[i]).kind_of() == kind
}

/// What a port is: its name, its element type and the messages in its bag, oldest first.
pub struct PortView<M: PortVal> {
    pub name: Seq<char>,
    pub kind: M::Kind,
    pub values: Seq<M>,
}

impl<M: PortVal> PortView<M> {
    /// The bag holds only messages of the port's element type.
    pub open spec fn wf(self) -> bool {
        all_of_kind(self.values, self.kind)
    }

    /// The same port with an empty bag.
    pub open spec fn cleared(self) -> PortView<M> {
        PortView { values: Seq::empty(), ..self }
    }

    /// The same port with `more` appended to its bag.
    pub open spec fn receiving(self, more: Seq<M>) -> PortView<M> {
        PortView { values: self.values + more, ..self }
    }
}

/// A port of a component: a bag of messages of one element type.
pub struct Port<M: PortVal> {
    name: String,
    kind: M::Kind,
    values: Vec<M>,
}

impl<M: PortVal> View for Port<M> {
    type V = PortView<M>;

    closed spec fn view(&self) -> PortView<M> {
        PortView { name: self.name@, kind: self.kind, values: self.values@ }
    }
}

impl<M: PortVal> Port<M> {
    /// Creates an empty port.
    pub fn new(name: &str, kind: M::Kind) -> (p: Port<M>)
        ensures
            p@ == (PortView::<M> { name: name@, kind, values: Seq::empty() }),
    {
        Port { name: name.to_owned(), kind, values: Vec::new() }
    }

    /// Returns the name of the port.
    pub fn get_name(&self) -> (name: &str)
        ensures
            name@ == self@.name,
    {
        self.name.as_str()
    }

    /// Returns `true` if the port is called `name`.
    pub fn has_name(&self, name: &str) -> (b: bool)
        ensures
            b == (self@.name == name@),
    {
        self.name == name.to_owned()
    }

    /// Returns the element type of the port.
    pub fn get_kind(&self) -> (k: M::Kind)
        ensures
            k == self@.kind,
    {
        self.kind
    }

    /// Returns `true` if the bag holds no message.
    pub fn is_empty(&self) -> (b: bool)
        ensures
            b == (self@.values.len() == 0),
    {
        self.values.len() == 0
    }

    /// Returns the messages in the bag, oldest first.
    pub fn get_values(&self) -> (values: &Vec<M>)
        ensures
            values@ == self@.values,
    {
        &self.values
    }

    /// Returns `true` if messages of this port may be copied into `other`.
    pub fn is_compatible(&self, other: &Port<M>) -> (b: bool)
        ensures
            b == (self@.kind == other@.kind),
    {
        M::same_kind(&self.kind, &other.kind)
    }

    /// Empties the bag.
    pub fn clear(&mut self)
        ensures
            final(self)@ == old(self)@.cleared(),
    {
        self.values.clear();
    }

    /// Appends one message to the bag.
    pub fn add_value(&mut self, value: M)
        requires
            value.kind_of() == old(self)@.kind,
        ensures
            final(self)@ == old(self)@.receiving(seq![value]),
    {
        self.values.push(value);
        assert(self.values@ =~= old(self).values@ + seq![value]);
    }

    /// Appends messages to the bag, keeping their order.
    pub fn add_values(&mut self, values: &Vec<M>)
        requires
            all_of_kind(values@, old(self)@.kind),
        ensures
            final(self)@ == old(self)@.receiving(values@),
    {
        let n = values.len();
        let mut i: usize = 0;
        while i < n
            invariant
                i <= n,
                n == values@.len(),
                self.name == old(self).name,
                self.kind == old(self).kind,
                self.values@ == old(self).values@ + values@.subrange(0, i as int),
            decreases n - i,
        {
            self.values.push(values[i]);
            assert(self.values@ =~= old(self).values@ + values@.subrange(0, i + 1));
            i = i + 1;
        }
        assert(values@.subrange(0, n as int) =~= values@);
    }

    /// Appends a copy of every message of `source` to the bag of this port.
    pub fn propagate(&mut self, source: &Port<M>)
        requires
            source@.kind == old(self)@.kind,
            source@.wf(),
        ensures
            final(self)@ == old(self)@.receiving(source@.values),
    {
        self.add_values(&source.values);
    }
}

/// Handle of an input port of a component. It reads the bag and cannot write to it.
pub struct InPort<M: PortVal> {
    pub index: usize,
    pub kind: M::Kind,
}

/// Handle of an output port of a component. It appends to the bag and cannot read it.
pub struct OutPort<M: PortVal> {
    pub index: usize,
    pub kind: M::Kind,
}

} // verus!
