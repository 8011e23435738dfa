//! Failures a limiter operation can end in.

use vstd::prelude::*;

verus! {

/// Why the store could not answer a pipeline.
#[derive(Debug, Clone, Copy, PartialEq, Eq, Structural)]
pub enum Fault {
    /// The connection to the store could not be used.
    Connection,
    /// The store refused a command or the transaction was aborted.
    Command,
}

impl Fault {
    /// The kind of a failure by its signs: one that came from the transport
    /// (an I/O error, a refused or dropped connection, a timeout) is a
    /// connection fault, any other a command fault.
    pub open spec fn by_signs(io: bool, refused: bool, dropped: bool, timed_out: bool) -> Fault {
        if io || refused || dropped || timed_out {
            Fault::Connection
        } else {
            Fault::Command
        }
    }

    /// Tells a connection fault from a command fault by the failure's signs.
    pub fn from_signs(io: bool, refused: bool, dropped: bool, timed_out: bool) -> (fault: Fault)
        ensures
            fault == Self::by_signs(io, refused, dropped, timed_out),
    {
        if io || refused || dropped || timed_out {
            Fault::Connection
        } else {
            Fault::Command
        }
    }
}

/// Why a `record`, `fetch` or `consume` did not produce a result.
#[derive(Debug, Clone, Copy, PartialEq, Eq, Structural)]
pub enum LimiterError {
    /// The connection to the store could not be opened or used.
    Connection,
    /// A command failed, or its answer was not of the expected shape.
    Command,
    /// The limit or the window cannot be used: zero, or too large to count with.
    Configuration,
}

impl LimiterError {
    /// The error a store fault is reported as.
    pub open spec fn of_fault(fault: Fault) -> LimiterError {
        match fault {
            Fault::Connection => LimiterError::Connection,
            Fault::Command => LimiterError::Command,
        }
    }

    /// Reports a store fault as a limiter error of the same kind.
    pub fn from_fault(fault: Fault) -> (e: LimiterError)
        ensures
            e == Self::of_fault(fault),
    {
        match fault {
            Fault::Connection => LimiterError::Connection,
            Fault::Command => LimiterError::Command,
        }
    }

    /// A short description, for logs and messages.
    pub fn describe(&self) -> (s: &'static str)
        ensures
            s@ == match *self {
                LimiterError::Connection => "the store connection failed"@,
                LimiterError::Command => "a store command failed"@,
                LimiterError::Configuration => "the limit or window is not usable"@,
            },
    {
        match self {
            LimiterError::Connection => "the store connection failed",
            LimiterError::Command => "a store command failed",
            LimiterError::Configuration => "the limit or window is not usable",
        }
    }
}

} // verus!
