//! The filter example scene.

use vstd::prelude::*;

verus! {

/// State of the filter example scene: deeply nested layers, some of them
/// filtered. The scene keeps nothing between two renderings.
#[derive(Debug, Clone, Copy, PartialEq, Eq, Structural)]
pub struct FilterScene {}

impl FilterScene {
    /// Creates a new `FilterScene`.
    pub fn new() -> (scene: FilterScene)
        ensures
            scene == (FilterScene {  }),
    {
        FilterScene {  }
    }
}

impl Default for FilterScene {
    fn default() -> (scene: FilterScene)
        ensures
            scene == (FilterScene {  }),
    {
        FilterScene::new()
    }
}

} // verus!
