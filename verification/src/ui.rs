//! What the screens of the viewer show.

use std::collections::HashMap;
use vstd::prelude::*;

verus! {

/// The list from which a dimension is selected.
#[derive(Debug)]
pub struct UiDimensionSelector {
    pub dimensions: Vec<String>,
}

/// How often each block name occurs.
#[derive(Debug)]
pub struct UiBlockDistribution {
    pub counts: HashMap<String, u64>,
}

impl UiBlockDistribution {
    /// A distribution without counts.
    pub fn new() -> (distribution: UiBlockDistribution)
        ensures
            distribution.counts@ == Map::<String, u64>::empty(),
    {
        UiBlockDistribution { counts: HashMap::new() }
    }
}

} // verus!
