use vstd::prelude::*;

verus! {

/// The failure kinds of the project service. They are externally
/// distinct: a denied mutation is not a missing resource, and a
/// duplicate membership (or a self-join on an inactive project) is a
/// conflict, never an authorization failure.
#[derive(Clone, Copy, Debug, PartialEq, Eq, Structural)]
pub enum ServiceError {
    /// A referenced project or user id does not exist.
    NotFound,
    /// The actor lacks the tier or ownership the mutation needs.
    Unauthorized,
    /// A duplicate membership pair, or a self-join on an inactive project.
    Conflict,
    /// An external commit fetch failed; fatal to the whole aggregation.
    Upstream,
    /// A malformed repository-list encoding was submitted.
    Validation,
}

impl ServiceError {
    /// The HTTP status each kind surfaces as.
    pub open spec fn spec_status_hint(self) -> u16 {
        match self {
            ServiceError::NotFound => 404,
            ServiceError::Unauthorized => 401,
            ServiceError::Conflict => 409,
            ServiceError::Upstream => 502,
            ServiceError::Validation => 400,
        }
    }

    /// The HTTP status each kind surfaces as.
    pub fn status_hint(&self) -> (r: u16)
        ensures
            r == self.spec_status_hint(),
    {
        match self {
            ServiceError::NotFound => 404,
            ServiceError::Unauthorized => 401,
            ServiceError::Conflict => 409,
            ServiceError::Upstream => 502,
            ServiceError::Validation => 400,
        }
    }
}

} // verus!
