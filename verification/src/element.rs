//! Defines the [`Element`] enum, the lowest level of the project hierarchy.
use vstd::prelude::*;

verus! {

/// An [`Element`] is something that can be drawn on the screen, commonly an
/// asset with additional metadata. It stores the identifier of the asset, which
/// the asset library resolves later, rather than its full path.
#[non_exhaustive]
pub enum Element {
    /// Represents an image: no pathing, patterns, ...
    Object(String),
}

impl Element {
    /// Generates a new [`Element`] for the given asset ID.
    pub fn new_object(asset_id: String) -> (element: Self)
        ensures
            element == Element::Object(asset_id),
    {
        Element::Object(asset_id)
    }
}

} // verus!
