//! What can be wrong with a forward spec.

use vstd::prelude::*;

verus! {

/// Why a forward spec was rejected. The first text of a variant is the spec (or
/// the part of it) that is at fault, the second says why.
#[derive(Debug, PartialEq, Eq)]
pub enum SpecError {
    /// Nothing but white space.
    Empty,
    /// A port was expected and is not there.
    MissingPort(String),
    /// The spec does not have the shape of one.
    Malformed(String, String),
    /// The text in the place of a port is no port.
    InvalidPort(String, String),
    /// The text before the `@` is no namespace selector.
    BadNamespace(String, String),
}

/// The model of a [`SpecError`].
#[verifier::ext_equal]
pub enum SpecFault {
    Empty,
    MissingPort(Seq<char>),
    Malformed(Seq<char>, Seq<char>),
    InvalidPort(Seq<char>, Seq<char>),
    BadNamespace(Seq<char>, Seq<char>),
}

impl View for SpecError {
    type V = SpecFault;

    open spec fn view(&self) -> SpecFault {
        match self {
            SpecError::Empty => SpecFault::Empty,
            SpecError::MissingPort(s) => SpecFault::MissingPort(s@),
            SpecError::Malformed(s, why) => SpecFault::Malformed(s@, why@),
            SpecError::InvalidPort(s, why) => SpecFault::InvalidPort(s@, why@),
            SpecError::BadNamespace(s, why) => SpecFault::BadNamespace(s@, why@),
        }
    }
}

impl SpecFault {
    /// The message for this error.
    pub open spec fn text(self) -> Seq<char> {
        match self {
            SpecFault::Empty => "empty forward spec"@,
            SpecFault::MissingPort(s) => "missing port in forward spec '"@ + s + "'"@,
            SpecFault::Malformed(s, why) => "malformed forward spec '"@ + s + "': "@ + why,
            SpecFault::InvalidPort(s, why) => "invalid port '"@ + s + "': "@ + why,
            SpecFault::BadNamespace(s, why) => "bad namespace '"@ + s + "': "@ + why,
        }
    }
}

fn quoted(head: &str, s: &str, mid: &str, why: &str) -> (r: String)
    ensures
        r@ == head@ + s@ + mid@ + why@,
{
    let mut r: String = String::from_str(head);
    r.append(s);
    r.append(mid);
    r.append(why);
    r
}

impl SpecError {
    /// The message for this error.
    pub fn message(&self) -> (r: String)
        ensures
            r@ == self@.text(),
    {
        match self {
            SpecError::Empty => String::from_str("empty forward spec"),
            SpecError::MissingPort(s) => {
                let mut r: String = String::from_str("missing port in forward spec '");
                r.append(s.as_str());
                r.append("'");
                r
            },
            SpecError::Malformed(s, why) => quoted(
                "malformed forward spec '",
                s.as_str(),
                "': ",
                why.as_str(),
            ),
            SpecError::InvalidPort(s, why) => quoted(
                "invalid port '",
                s.as_str(),
                "': ",
                why.as_str(),
            ),
            SpecError::BadNamespace(s, why) => quoted(
                "bad namespace '",
                s.as_str(),
                "': ",
                why.as_str(),
            ),
        }
    }
}

/// The model of a result whose error is a plain value.
pub open spec fn outcome_plain<T: View, E>(r: Result<T, E>) -> Result<T::V, E> {
    match r {
        Ok(v) => Ok(v@),
        Err(e) => Err(e),
    }
}

/// The model of a result: that of its value or of its error.
pub open spec fn outcome<T: View, E: View>(r: Result<T, E>) -> Result<T::V, E::V> {
    match r {
        Ok(v) => Ok(v@),
        Err(e) => Err(e@),
    }
}

} // verus!
