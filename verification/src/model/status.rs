//! The lifecycle status of an atom.
use vstd::prelude::*;

verus! {

/// Lifecycle status of an atom. Only `Active` atoms are the true source.
#[derive(Clone, Copy, Debug, PartialEq, Eq, Structural, Hash)]
pub enum Status {
    Draft,
    Active,
    Deprecated,
}

/// The lower-case name a status is written as.
pub open spec fn status_name(s: Status) -> Seq<char> {
    match s {
        Status::Draft => "draft"@,
        Status::Active => "active"@,
        Status::Deprecated => "deprecated"@,
    }
}

impl Status {
    /// The lower-case name of the status, as it appears in front matter and messages.
    pub fn as_str(self) -> (r: &'static str)
        ensures
            r@ == status_name(self),
    {
        match self {
            Status::Draft => "draft",
            Status::Active => "active",
            Status::Deprecated => "deprecated",
        }
    }
}

} // verus!
