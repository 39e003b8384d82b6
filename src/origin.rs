use vstd::prelude::*;

verus! {

/// Where an announcement came from: a directly connected publisher, or a
/// cluster peer identified by the number of its session.
#[derive(Clone, Copy, Debug, PartialEq, Eq, Structural)]
pub enum Origin {
    Local,
    Remote(u64),
}

} // verus!
