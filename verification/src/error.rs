//! The error model: a dedicated "wrong type" cast error, a generic string
//! error, and the attachment lookup error split into its two failure modes.

use vstd::prelude::*;

verus! {

/// Error returned by the fallible narrowing conversions between `Scalar`,
/// `Array` and `Hash`: the runtime type tag did not match.
#[derive(Clone, Copy, Debug, PartialEq, Eq, Structural)]
pub struct CastError;

impl CastError {
    /// The fixed description of this error.
    pub fn message(&self) -> (r: &'static str)
        ensures
            r@ == "wrong type"@,
    {
        "wrong type"
    }
}

/// Generic marshaling error carrying a message.
#[derive(Clone, Debug, PartialEq, Eq)]
pub struct Error(pub String);

impl Error {
    /// Build an error from a message.
    pub fn new(s: &str) -> (r: Self)
        ensures
            r.0@ == s@,
    {
        Error(String::from_str(s))
    }

    /// Build an error from an owned message.
    pub fn new_owned(s: String) -> (r: Self)
        ensures
            r.0@ == s@,
    {
        Error(s)
    }

    /// Shorthand for `Err(Error::new(s))`.
    pub fn fail<T>(s: &str) -> (r: Result<T, Self>)
        ensures
            r matches Err(e) && e.0@ == s@,
    {
        Err(Error(String::from_str(s)))
    }

    /// The error message.
    pub fn message(&self) -> (r: &str)
        ensures
            r@ == self.0@,
    {
        self.0.as_str()
    }
}

/// Failure modes of looking up a foreign attachment behind a reference:
/// the value was not a reference at all, or it was one but carried no
/// attachment for the requested tag.  Each variant names the class the
/// lookup was made for.
#[derive(Clone, Copy, Debug, PartialEq, Eq)]
pub enum MagicError {
    NotAReference(&'static str),
    NotFound(&'static str),
}

} // verus!
