use vstd::prelude::*;

verus! {

/// State of a message-layer-security group (epochs only; group keys are not implemented).
pub struct GroupState {
    pub epoch: u64,
}

impl GroupState {
    pub fn new() -> (r: GroupState)
        ensures
            r.epoch == 0,
    {
        GroupState { epoch: 0 }
    }
}

/// An onion circuit: the ordered relay hops (routing is not implemented).
pub struct Circuit {
    pub hops: Vec<String>,
}

impl Circuit {
    pub fn new() -> (r: Circuit)
        ensures
            r.hops@.len() == 0,
    {
        Circuit { hops: Vec::new() }
    }
}

} // verus!
