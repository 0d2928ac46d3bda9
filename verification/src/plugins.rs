//! Markers for the editor's plugins; the application wires them into its engine.
use vstd::prelude::*;

verus! {

/// Registers the resources and functionality of the asset system: an
/// [`AssetLibrary`](crate::library::AssetLibrary) loaded from the
/// configuration directory, or an empty one.
#[derive(Default)]
pub struct AssetPlugin;

/// Adds the editor's user interface to the application it is added to.
pub struct UIPlugin;

} // verus!
