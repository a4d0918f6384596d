//! The failures the external tools (`bank`, `gls`/`bat`, `bound`) report
//! when they cannot do what a plan asks.
use vstd::prelude::*;

verus! {

/// Why `bank` could not establish a path.
#[derive(Debug)]
pub struct BankError(String);

impl View for BankError {
    type V = Seq<char>;

    closed spec fn view(&self) -> Seq<char> {
        self.0@
    }
}

impl BankError {
    pub fn new(message: String) -> (r: Self)
        ensures
            r@ == message@,
    {
        BankError(message)
    }

    /// The text of the failure.
    pub fn message(&self) -> (r: &str)
        ensures
            r@ == self@,
    {
        self.0.as_str()
    }
}

/// Why a viewer (`gls` or `bat`) could not show a path.
#[derive(Debug)]
pub struct SeeError(String);

impl View for SeeError {
    type V = Seq<char>;

    closed spec fn view(&self) -> Seq<char> {
        self.0@
    }
}

impl SeeError {
    pub fn new(message: String) -> (r: Self)
        ensures
            r@ == message@,
    {
        SeeError(message)
    }

    /// The text of the failure.
    pub fn message(&self) -> (r: &str)
        ensures
            r@ == self@,
    {
        self.0.as_str()
    }
}

/// Why `bound` could not aggregate a source set.
#[derive(Debug)]
pub struct BoundError(String);

impl View for BoundError {
    type V = Seq<char>;

    closed spec fn view(&self) -> Seq<char> {
        self.0@
    }
}

impl BoundError {
    pub fn new(message: String) -> (r: Self)
        ensures
            r@ == message@,
    {
        BoundError(message)
    }

    /// The text of the failure.
    pub fn message(&self) -> (r: &str)
        ensures
            r@ == self@,
    {
        self.0.as_str()
    }
}

} // verus!
