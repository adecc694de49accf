//! Cells and objects of an agents' map.
use vstd::prelude::*;

verus! {

/// A described cell of the map.
pub struct Cell {
    pub x: usize,
    pub y: usize,
    pub description: String,
}

/// The description of a kind of cell, by id.
pub struct CellDefinition {
    pub id: usize,
    pub description: String,
}

/// An object placed on the map.
pub struct Object {
    pub x: usize,
    pub y: usize,
    pub data: ObjectDefinition,
}

/// What an object is and what can be done with it.
#[derive(Clone)]
pub struct ObjectDefinition {
    pub name: String,
    pub description: String,
    pub actions: Vec<ObjectAction>,
}

/// Something that can be done with an object, and what it needs.
#[derive(Clone)]
pub struct ObjectAction {
    pub name: String,
    pub description: String,
    pub requirements: Vec<String>,
}

} // verus!
