//! The generator, processor and transducer models and the coupled models
//! built from them.
use crate::text::{decimal, decimal_text, lemma_pair_round_trip, pair, parse_pair};
use vstd::prelude::*;
use vstd::string::StringExecFns;

pub mod efp;
pub mod generator;
pub mod model;
pub mod processor;
pub mod transducer;

pub use efp::{Efp, ExperimentalFrame, Gpt};
pub use generator::Generator;
pub use model::GptModel;
pub use processor::Processor;
pub use transducer::Transducer;

verus! {

/// A finished job: its identifier and the ticks that were spent on it.
#[derive(Debug, Clone, Copy, PartialEq, Eq, Structural)]
pub struct Job(pub usize, pub u64);

/// The text was not a job.
#[derive(Debug, Clone, Copy, PartialEq, Eq, Structural)]
pub struct ParseError();

impl Job {
    /// The job written as `(id, time)`.
    pub open spec fn text(self) -> Seq<char> {
        "("@ + decimal(self.0 as nat) + ", "@ + decimal(self.1 as nat) + ")"@
    }

    /// The job that a text of the form `(id, time)` stands for, if any.
    pub open spec fn parsed(text: Seq<char>) -> Option<Job> {
        match pair(text, usize::MAX as u64, u64::MAX) {
            Some((id, time)) => Some(Job(id as usize, time)),
            None => None,
        }
    }

    /// Writes the job as `(id, time)`.
    pub fn to_string(&self) -> (text: String)
        ensures
            text@ == self.text(),
    {
        let mut text = String::from_str("(");
        text.append(decimal_text(self.0 as u64).as_str());
        text.append(", ");
        text.append(decimal_text(self.1).as_str());
        text.append(")");
        text
    }

    /// Reads a job from a text of the form `(id, time)`. Blanks may stand
    /// around the brackets, the numbers and the comma.
    pub fn from_str(s: &str) -> (r: Result<Job, ParseError>)
        ensures
            match Job::parsed(s@) {
                Some(job) => r == Ok::<Job, ParseError>(job),
                None => r is Err,
            },
    {
        match parse_pair(s, usize::MAX as u64, u64::MAX) {
            Some((id, time)) => Ok(Job(id as usize, time)),
            None => Err(ParseError()),
        }
    }
}

/// Text round trip: a job written as text is read back as the same job.
pub proof fn law_job_round_trip(job: Job)
    ensures
        Job::parsed(job.text()) == Some(job),
{
    lemma_pair_round_trip(job.0 as nat, job.1 as nat, usize::MAX as u64, u64::MAX);
}

} // verus!
