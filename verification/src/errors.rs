//! The closed set of failure kinds shared by every registry operation.

use vstd::prelude::*;
use vstd::string::StringExecFns;

verus! {

/// A failure raised by a registry or loader operation.
///
/// `Absent` is the "nothing found" outcome rather than a true fault;
/// `Unsupported` marks an input or call that violates a documented
/// invariant; `ReportableBug` marks an internal consistency violation
/// that correct code never produces; `Io` carries the message of a
/// filesystem failure met while reading a membership artifact.
#[derive(Debug)]
pub enum Error {
    /// A requested entry, position, or value does not exist.
    Absent,
    /// The operation or its input violates a documented invariant.
    Unsupported(String),
    /// An internal invariant was broken: a defect in this library.
    ReportableBug(String),
    /// A filesystem or storage failure, described by its message.
    Io(String),
}

impl Clone for Error {
    /// Cloning copies the kind and its payload.
    fn clone(&self) -> (r: Error)
        ensures
            r == *self,
    {
        match self {
            Error::Absent => Error::Absent,
            Error::Unsupported(why) => Error::Unsupported(why.clone()),
            Error::ReportableBug(what) => Error::ReportableBug(what.clone()),
            Error::Io(m) => Error::Io(m.clone()),
        }
    }
}

impl PartialEq for Error {
    /// Two errors are equal when they are the same kind with equal
    /// payloads, except that two `Io` values are never equal: the
    /// underlying storage condition is not canonically comparable.
    fn eq(&self, other: &Error) -> bool {
        match (self, other) {
            (Error::Absent, Error::Absent) => true,
            (Error::Unsupported(a), Error::Unsupported(b)) => *a == *b,
            (Error::ReportableBug(a), Error::ReportableBug(b)) => *a == *b,
            _ => false,
        }
    }
}

impl vstd::std_specs::cmp::PartialEqSpecImpl for Error {
    open spec fn obeys_eq_spec() -> bool {
        true
    }

    open spec fn eq_spec(&self, other: &Error) -> bool {
        match (self, other) {
            (Error::Absent, Error::Absent) => true,
            (Error::Unsupported(a), Error::Unsupported(b)) => a@ == b@,
            (Error::ReportableBug(a), Error::ReportableBug(b)) => a@ == b@,
            _ => false,
        }
    }
}

impl Error {
    /// A line describing the error, fit for a log or a console.
    pub fn message(&self) -> (r: String)
        ensures
            self is Absent ==> r@ == "Not an error."@,
            self matches Error::Unsupported(why) ==> r@ == "Unsupported: "@ + why@,
            self matches Error::ReportableBug(what) ==> r@ == "Unexpected bug has happened: "@
                + what@ + ". PLEASE REPORT THIS BUG!"@,
            self matches Error::Io(m) ==> r@ == "IO error: "@ + m@,
    {
        match self {
            Error::Absent => String::from_str("Not an error."),
            Error::Unsupported(why) => String::from_str("Unsupported: ").concat(why.as_str()),
            Error::ReportableBug(what) => String::from_str("Unexpected bug has happened: ").concat(
                what.as_str(),
            ).concat(". PLEASE REPORT THIS BUG!"),
            Error::Io(m) => String::from_str("IO error: ").concat(m.as_str()),
        }
    }

    /// True exactly when this error is the `Absent` kind.
    pub fn is_absent(&self) -> (r: bool)
        ensures
            r == (self is Absent),
    {
        match self {
            Error::Absent => true,
            _ => false,
        }
    }
}

} // verus!
