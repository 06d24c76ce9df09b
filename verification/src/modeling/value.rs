//! The messages that the models of this library exchange.
use super::port::PortVal;
use crate::text::{
    decimal, decimal_text, lemma_decimal_characters, lemma_decimal_length, lemma_number_of_decimal,
    lemma_pair_round_trip, lemma_unsigned_of_decimal, pair, parse_pair, parse_signed,
    parse_unsigned, signed, unsigned,
};
use vstd::prelude::*;
use vstd::string::StringExecFns;

verus! {

/// Element type of a port. Two ports can be coupled only if their kinds are equal.
#[derive(Clone, Copy, Debug, PartialEq, Eq, Structural)]
pub enum Kind {
    /// Truth values.
    Bool,
    /// Unsigned counters and identifiers.
    Count,
    /// Signed integers.
    Int,
    /// Jobs: an identifier and the ticks spent on it.
    Job,
}

/// A message.
#[derive(Clone, Copy, Debug, PartialEq, Eq, Structural)]
pub enum Value {
    Bool(bool),
    Count(usize),
    Int(i64),
    Job(usize, u64),
}

impl Kind {
    /// Returns `true` if both element types are the same.
    pub fn same_as(&self, other: &Kind) -> (b: bool)
        ensures
            b == (*self == *other),
    {
        match (self, other) {
            (Kind::Bool, Kind::Bool) => true,
            (Kind::Count, Kind::Count) => true,
            (Kind::Int, Kind::Int) => true,
            (Kind::Job, Kind::Job) => true,
            _ => false,
        }
    }
}

/// The size of a signed integer.
pub open spec fn magnitude(i: i64) -> nat {
    if i < 0 {
        (-(i as int)) as nat
    } else {
        i as nat
    }
}

impl PortVal for Value {
    type Kind = Kind;

    /// The element type this message belongs to.
    open spec fn kind_of(self) -> Kind {
        match self {
            Value::Bool(_) => Kind::Bool,
            Value::Count(_) => Kind::Count,
            Value::Int(_) => Kind::Int,
            Value::Job(_, _) => Kind::Job,
        }
    }

    /// The message as text: `true` or `false`, a number in decimal, with a
    /// minus sign if it is negative, or a job as `(id, time)`.
    open spec fn text(self) -> Seq<char> {
        match self {
            Value::Bool(b) => if b {
                "true"@
            } else {
                "false"@
            },
            Value::Count(n) => decimal(n as nat),
            Value::Int(i) => if i < 0 {
                "-"@ + decimal(magnitude(i))
            } else {
                decimal(magnitude(i))
            },
            Value::Job(id, time) => "("@ + decimal(id as nat) + ", "@ + decimal(time as nat) + ")"@,
        }
    }

    /// The message of the given element type that a text stands for, if any.
    open spec fn parsed(kind: Kind, text: Seq<char>) -> Option<Value> {
        match kind {
            Kind::Bool => if text == "true"@ {
                Some(Value::Bool(true))
            } else if text == "false"@ {
                Some(Value::Bool(false))
            } else {
                None
            },
            Kind::Count => match unsigned(text, usize::MAX as u64) {
                Some(n) => Some(Value::Count(n as usize)),
                None => None,
            },
            Kind::Int => match signed(text) {
                Some(i) => Some(Value::Int(i)),
                None => None,
            },
            Kind::Job => match pair(text, usize::MAX as u64, u64::MAX) {
                Some((id, time)) => Some(Value::Job(id as usize, time)),
                None => None,
            },
        }
    }

    /// Writes the message as text.
    fn to_text(&self) -> (text: String) {
        match self {
            Value::Bool(b) => if *b {
                String::from_str("true")
            } else {
                String::from_str("false")
            },
            Value::Count(n) => decimal_text(*n as u64),
            Value::Int(i) => {
                if *i < 0 {
                    let size: u64 = if *i == i64::MIN {
                        0x8000_0000_0000_0000
                    } else {
                        (0 - *i) as u64
                    };
                    let mut text = String::from_str("-");
                    text.append(decimal_text(size).as_str());
                    text
                } else {
                    decimal_text(*i as u64)
                }
            },
            Value::Job(id, time) => {
                let mut text = String::from_str("(");
                text.append(decimal_text(*id as u64).as_str());
                text.append(", ");
                text.append(decimal_text(*time).as_str());
                text.append(")");
                text
            },
        }
    }

    /// Reads a text as a message of the given element type.
    fn parse(kind: Kind, text: &str) -> (value: Option<Value>) {
        match kind {
            Kind::Bool => {
                let owned = text.to_owned();
                if owned == String::from_str("true") {
                    Some(Value::Bool(true))
                } else if owned == String::from_str("false") {
                    Some(Value::Bool(false))
                } else {
                    None
                }
            },
            Kind::Count => {
                let n = text.unicode_len();
                assert(text@.subrange(0, n as int) =~= text@);
                match parse_unsigned(text, 0, n, usize::MAX as u64) {
                    Some(v) => Some(Value::Count(v as usize)),
                    None => None,
                }
            },
            Kind::Int => {
                let n = text.unicode_len();
                assert(text@.subrange(0, n as int) =~= text@);
                match parse_signed(text, 0, n) {
                    Some(v) => Some(Value::Int(v)),
                    None => None,
                }
            },
            Kind::Job => match parse_pair(text, usize::MAX as u64, u64::MAX) {
                Some((id, time)) => Some(Value::Job(id as usize, time)),
                None => None,
            },
        }
    }

    /// Returns the element type of the message.
    fn kind(&self) -> (k: Kind) {
        match self {
            Value::Bool(_) => Kind::Bool,
            Value::Count(_) => Kind::Count,
            Value::Int(_) => Kind::Int,
            Value::Job(_, _) => Kind::Job,
        }
    }

    fn same_kind(a: &Kind, b: &Kind) -> (same: bool) {
        a.same_as(b)
    }
}

/// Text round trip: a message written as text is read back as the same
/// message, when it is read as a message of its own element type.
pub proof fn law_text_round_trip(value: Value)
    ensures
        Value::parsed(value.kind_of(), value.text()) == Some(value),
{
    match value {
        Value::Bool(b) => {
            reveal_strlit("true");
            reveal_strlit("false");
            assert("true"@.len() != "false"@.len());
        },
        Value::Count(n) => {
            lemma_unsigned_of_decimal(n as nat, usize::MAX as u64);
        },
        Value::Int(i) => {
            reveal_strlit("-");
            let m = magnitude(i);
            lemma_decimal_length(m);
            lemma_decimal_characters(m, 0);
            lemma_number_of_decimal(m);
            if i < 0 {
                let s = "-"@ + decimal(m);
                assert(s[0] == '-');
                assert(s.skip(1) =~= decimal(m));
            } else {
                lemma_unsigned_of_decimal(m, 0x7fff_ffff_ffff_ffff);
            }
        },
        Value::Job(id, time) => {
            lemma_pair_round_trip(id as nat, time as nat, usize::MAX as u64, u64::MAX);
        },
    }
}

} // verus!
