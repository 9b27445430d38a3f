//! Core graph data model: vertices and edges.

use vstd::prelude::*;

verus! {

/// A vertex: an identifier together with its current value.
#[derive(Debug, Clone)]
pub struct Vertex<K, VV> {
    pub id: K,
    pub value: VV,
}

impl<K, VV> Vertex<K, VV> {
    pub fn new(id: K, value: VV) -> (r: Self)
        ensures
            r.id == id,
            r.value == value,
    {
        Self { id, value }
    }
}

/// A directed edge stored on the worker that owns `src_id`. The `target_id`
/// may live on any worker. Edges are never deduplicated; parallel edges are
/// preserved.
#[derive(Debug, Clone)]
pub struct Edge<K, EV> {
    pub src_id: K,
    pub target_id: K,
    pub value: EV,
}

impl<K, EV> Edge<K, EV> {
    pub fn new(src_id: K, target_id: K, value: EV) -> (r: Self)
        ensures
            r.src_id == src_id,
            r.target_id == target_id,
            r.value == value,
    {
        Self { src_id, target_id, value }
    }
}

} // verus!
