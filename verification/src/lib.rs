//! Core of an entity-relationship diagram editor: the balanced search tree
//! that buckets a sorted key list by a fixed split table, and the diagram
//! object model — node kinds, their link-drawing rules, and the link list.
//!
//! Everything on a screen — coordinates, shapes, windows — stays with the
//! editor around this crate; here live the parts with exact contracts.

pub mod bminustree;
pub mod objects;
