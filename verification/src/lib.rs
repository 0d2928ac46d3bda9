//! Core logic of the DungeonRS map editor: the asset library and its packs, map
//! elements, path helpers and the text of crash reports.
pub mod text;
pub mod paths;
pub mod hashing;
pub mod keyed;
pub mod packs;
pub mod element;
pub mod library;
pub mod crash;
pub mod events;
pub mod plugins;
