//! The network probe's outcome.
use vstd::prelude::*;

verus! {

/// What a probe of the server found. Two statuses compare equal when both
/// are `Connect` or neither is.
#[derive(Debug)]
pub enum NetworkStatus {
    Connect,
    Disconnect,
    Error(String),
}

impl NetworkStatus {
    pub fn is_connect(&self) -> (r: bool)
        ensures
            r == (*self is Connect),
    {
        match self {
            NetworkStatus::Connect => true,
            _ => false,
        }
    }
}

impl PartialEq for NetworkStatus {
    fn eq(&self, other: &NetworkStatus) -> (r: bool) {
        self.is_connect() == other.is_connect()
    }
}

impl vstd::std_specs::cmp::PartialEqSpecImpl for NetworkStatus {
    open spec fn obeys_eq_spec() -> bool {
        true
    }

    open spec fn eq_spec(&self, other: &NetworkStatus) -> bool {
        (*self is Connect) == (*other is Connect)
    }
}

} // verus!
