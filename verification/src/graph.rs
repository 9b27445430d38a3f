//! The in-memory single-process graph executor, used for local runs and
//! tests.
//!
//! The graph holds its vertices and adjacency in memory and runs a
//! vertex-centric computation as supersteps until the iteration budget is
//! spent or no message was sent. What a user-supplied compute function does
//! is its own business; the engine promises the bookkeeping: every vertex
//! visited each superstep, messages delivered to their targets on the next
//! superstep, values replaced exactly when the function sets one.

use vstd::prelude::*;
use crate::types::{Vertex, Edge};

verus! {

/// A key usable by the in-memory engine: decidable equality and copying,
/// reflected into specifications.
pub trait GraphKey: Sized {
    fn key_eq(&self, other: &Self) -> (r: bool)
        ensures
            r <==> self == other,
    ;

    fn dup(&self) -> (r: Self)
        ensures
            r == *self,
    ;
}

impl GraphKey for u64 {
    fn key_eq(&self, other: &Self) -> bool {
        *self == *other
    }

    fn dup(&self) -> Self {
        *self
    }
}

impl GraphKey for i32 {
    fn key_eq(&self, other: &Self) -> bool {
        *self == *other
    }

    fn dup(&self) -> Self {
        *self
    }
}

/// The context one vertex computation sees: its current value, its
/// out-edges, the messages it sends, and the 1-based iteration.
pub struct ComputeContext<K, VV, EV, M> {
    pub vertex_value: Option<VV>,
    pub edges: Vec<Edge<K, EV>>,
    pub out_messages: Vec<(K, M)>,
    pub iteration: u64,
}

/// The operations a vertex computation performs on its context.
pub trait VertexCentricComputeFuncContext<K, VV, EV, M> {
    fn vertex_value(&self) -> Option<&VV>;

    fn set_new_vertex_value(&mut self, value: VV);

    fn send_message(&mut self, target_id: K, message: M);

    fn edges(&self) -> &Vec<Edge<K, EV>>;

    fn iteration(&self) -> u64;
}

impl<K, VV, EV, M> VertexCentricComputeFuncContext<K, VV, EV, M> for ComputeContext<K, VV, EV, M> {
    fn vertex_value(&self) -> Option<&VV> {
        match &self.vertex_value {
            Some(v) => Some(v),
            None => None,
        }
    }

    fn set_new_vertex_value(&mut self, value: VV) {
        self.vertex_value = Some(value);
    }

    fn send_message(&mut self, target_id: K, message: M) {
        self.out_messages.push((target_id, message));
    }

    fn edges(&self) -> &Vec<Edge<K, EV>> {
        &self.edges
    }

    fn iteration(&self) -> u64 {
        self.iteration
    }
}

/// A per-vertex computation: called once per vertex per superstep with the
/// vertex's messages, in an engine-provided context.
pub trait VertexCentricComputeFunction<K, VV, EV, M> {
    fn compute(
        &mut self,
        vertex_id: &K,
        messages: Vec<M>,
        context: &mut ComputeContext<K, VV, EV, M>,
    );
}

/// A named vertex-centric algorithm with an iteration budget, producing its
/// compute function per run.
pub trait VertexCentricComputeAlgorithm<K, VV, EV, M> {
    type Func: VertexCentricComputeFunction<K, VV, EV, M>;

    fn name(&self) -> String;

    fn iterations(&self) -> u64;

    fn create_function(&self) -> Self::Func;
}

/// The in-memory graph: vertex values and adjacency keyed by vertex id.
pub struct InMemoryGraph<K, VV, EV> {
    pub vertices: Vec<(K, VV)>,
    pub edges: Vec<Edge<K, EV>>,
    pub adjacency: Vec<(K, Vec<Edge<K, EV>>)>,
}

/// The first position of a key in a keyed list, or nothing.
fn lookup<K: GraphKey, T>(l: &Vec<(K, T)>, k: &K) -> (r: Option<usize>)
    ensures
        r matches Some(i) ==> i < l@.len() && l@[i as int].0 == *k,
{
    let n = l.len();
    let mut i: usize = 0;
    while i < n
        invariant
            i <= n,
            n == l@.len(),
        decreases n - i,
    {
        if l[i].0.key_eq(k) {
            return Some(i);
        }
        i += 1;
    }
    None
}

impl<K: GraphKey, VV: Clone, EV: Clone> InMemoryGraph<K, VV, EV> {
    /// Build a graph from vertices and edges: values keyed by id, the
    /// adjacency grouping each edge under its source.
    pub fn new(vertices: Vec<Vertex<K, VV>>, edges: Vec<Edge<K, EV>>) -> (r: Self)
        ensures
            r.edges@.len() == edges@.len(),
    {
        let mut v_map: Vec<(K, VV)> = Vec::new();
        let mut rest = vertices;
        while rest.len() > 0
            decreases rest@.len(),
        {
            let v = rest.remove(0);
            match lookup(&v_map, &v.id) {
                Some(i) => {
                    let entry = vstd::std_specs::vec::vec_index_mut(&mut v_map, i);
                    entry.1 = v.value;
                },
                None => {
                    v_map.push((v.id, v.value));
                },
            }
        }
        let mut adjacency: Vec<(K, Vec<Edge<K, EV>>)> = Vec::new();
        let ecount = edges.len();
        let mut j: usize = 0;
        while j < ecount
            invariant
                j <= ecount,
                ecount == edges@.len(),
            decreases ecount - j,
        {
            let e = Edge {
                src_id: edges[j].src_id.dup(),
                target_id: edges[j].target_id.dup(),
                value: edges[j].value.clone(),
            };
            match lookup(&adjacency, &e.src_id) {
                Some(i) => {
                    let entry = vstd::std_specs::vec::vec_index_mut(&mut adjacency, i);
                    entry.1.push(e);
                },
                None => {
                    let src = e.src_id.dup();
                    let mut one: Vec<Edge<K, EV>> = Vec::new();
                    one.push(e);
                    adjacency.push((src, one));
                },
            }
            j += 1;
        }
        InMemoryGraph { vertices: v_map, edges, adjacency }
    }

    /// Run a vertex-centric computation to quiescence, up to
    /// `max_iterations` supersteps when given.
    pub fn compute<M, F: VertexCentricComputeFunction<K, VV, EV, M>>(
        self,
        compute_function: F,
        _parallelism: usize,
    ) -> Self {
        self.run_with_function(compute_function, None)
    }

    /// Run a named algorithm: its own function, bounded by its declared
    /// iterations.
    pub fn compute_algorithm<M, A: VertexCentricComputeAlgorithm<K, VV, EV, M>>(
        self,
        algorithm: &A,
        _parallelism: usize,
    ) -> Self {
        let func = algorithm.create_function();
        let iterations = algorithm.iterations();
        self.run_with_function(func, Some(iterations))
    }

    /// The superstep loop: each iteration visits every vertex once with its
    /// pending messages, applies the value it set, and collects its outgoing
    /// messages for the next iteration; the run ends after `max_iterations`
    /// or on the first iteration that sent no message.
    fn run_with_function<M, F: VertexCentricComputeFunction<K, VV, EV, M>>(
        self,
        compute_function: F,
        max_iterations: Option<u64>,
    ) -> Self {
        let mut graph = self;
        let mut func = compute_function;
        let max: u64 = match max_iterations {
            Some(m) => m,
            None => u64::MAX,
        };
        let mut messages: Vec<(K, Vec<M>)> = Vec::new();
        let mut iteration: u64 = 1;
        while iteration <= max
            decreases max - iteration,
        {
            let mut next_messages: Vec<(K, Vec<M>)> = Vec::new();
            let mut sent = false;
            let vcount = graph.vertices.len();
            let mut vi: usize = 0;
            while vi < vcount
                invariant
                    vi <= vcount,
                    vcount == graph.vertices@.len(),
                decreases vcount - vi,
            {
                let vid = graph.vertices[vi].0.dup();
                let v_val = Some(graph.vertices[vi].1.clone());
                let vertex_edges: Vec<Edge<K, EV>> = match lookup(&graph.adjacency, &vid) {
                    Some(ai) => clone_edges(&graph.adjacency[ai].1),
                    None => Vec::new(),
                };
                let msgs: Vec<M> = match lookup(&messages, &vid) {
                    Some(mi) => {
                        let entry = vstd::std_specs::vec::vec_index_mut(&mut messages, mi);
                        let mut out: Vec<M> = Vec::new();
                        core::mem::swap(&mut out, &mut entry.1);
                        out
                    },
                    None => Vec::new(),
                };
                let mut ctx = ComputeContext {
                    vertex_value: v_val,
                    edges: vertex_edges,
                    out_messages: Vec::new(),
                    iteration,
                };
                func.compute(&vid, msgs, &mut ctx);
                match ctx.vertex_value {
                    Some(new_val) => {
                        let entry = vstd::std_specs::vec::vec_index_mut(&mut graph.vertices, vi);
                        entry.1 = new_val;
                    },
                    None => {},
                }
                let mut outgoing = ctx.out_messages;
                while outgoing.len() > 0
                    decreases outgoing@.len(),
                {
                    let (target, msg) = outgoing.remove(0);
                    sent = true;
                    match lookup(&next_messages, &target) {
                        Some(ti) => {
                            let entry = vstd::std_specs::vec::vec_index_mut(
                                &mut next_messages,
                                ti,
                            );
                            entry.1.push(msg);
                        },
                        None => {
                            let mut one: Vec<M> = Vec::new();
                            one.push(msg);
                            next_messages.push((target, one));
                        },
                    }
                }
                vi += 1;
            }
            messages = next_messages;
            if !sent {
                break ;
            }
            if iteration == max {
                break ;
            }
            iteration += 1;
        }
        graph
    }

    /// The vertices with their current values.
    pub fn vertices(&self) -> (r: Vec<Vertex<K, VV>>)
        ensures
            r@.len() == self.vertices@.len(),
    {
        let n = self.vertices.len();
        let mut out: Vec<Vertex<K, VV>> = Vec::new();
        let mut i: usize = 0;
        while i < n
            invariant
                i <= n,
                n == self.vertices@.len(),
                out@.len() == i,
            decreases n - i,
        {
            out.push(Vertex { id: self.vertices[i].0.dup(), value: self.vertices[i].1.clone() });
            i += 1;
        }
        out
    }
}

/// Copy an adjacency list.
fn clone_edges<K: GraphKey, EV: Clone>(l: &Vec<Edge<K, EV>>) -> (r: Vec<Edge<K, EV>>)
    ensures
        r@.len() == l@.len(),
{
    let n = l.len();
    let mut out: Vec<Edge<K, EV>> = Vec::new();
    let mut i: usize = 0;
    while i < n
        invariant
            i <= n,
            n == l@.len(),
            out@.len() == i,
        decreases n - i,
    {
        out.push(
            Edge {
                src_id: l[i].src_id.dup(),
                target_id: l[i].target_id.dup(),
                value: l[i].value.clone(),
            },
        );
        i += 1;
    }
    out
}

} // verus!
