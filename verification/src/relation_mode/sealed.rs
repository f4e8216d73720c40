//! Keeps the set of modes closed.

use super::{
    Directed, DirectedExclusive, DirectedExclusiveIncoming, DirectedExclusiveOutgoing,
    Undirected, UndirectedExclusive,
};
use vstd::prelude::*;

verus! {

/// Closes `RelationMode`: only the six modes implement it.
pub trait Sealed {
}

impl Sealed for Directed {
}

impl Sealed for DirectedExclusive {
}

impl Sealed for DirectedExclusiveIncoming {
}

impl Sealed for DirectedExclusiveOutgoing {
}

impl Sealed for Undirected {
}

impl Sealed for UndirectedExclusive {
}

} // verus!
