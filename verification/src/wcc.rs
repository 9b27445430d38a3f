//! Weakly connected components as a plug-in of the in-memory executor:
//! plain 64-bit ids and values, minimum-id label propagation.

use vstd::prelude::*;
use vstd::string::StringExecFns;
use crate::graph::{ComputeContext, VertexCentricComputeAlgorithm, VertexCentricComputeFunction};

verus! {

/// The local WCC algorithm: its iteration budget.
#[derive(Debug, Clone)]
pub struct WccAlgorithm {
    pub iterations: u64,
}

impl WccAlgorithm {
    pub fn new(iterations: u64) -> (r: Self)
        ensures
            r.iterations == iterations,
    {
        Self { iterations }
    }
}

/// The per-vertex WCC computation: seed with the own id, then adopt and
/// announce any strictly smaller component heard of.
#[derive(Debug, Clone)]
pub struct WccFunction;

impl VertexCentricComputeFunction<u64, u64, u8, u64> for WccFunction {
    fn compute(
        &mut self,
        vertex_id: &u64,
        messages: Vec<u64>,
        context: &mut ComputeContext<u64, u64, u8, u64>,
    ) {
        let current: u64 = match context.vertex_value {
            Some(v) => v,
            None => *vertex_id,
        };

        if context.iteration == 1 {
            context.vertex_value = Some(*vertex_id);
            let targets = edge_targets(&context.edges);
            let mut rest = targets;
            while rest.len() > 0
                decreases rest@.len(),
            {
                let t = rest.remove(0);
                context.out_messages.push((t, *vertex_id));
            }
            return ;
        }

        let mut min_comp = current;
        let mut rest = messages;
        while rest.len() > 0
            invariant
                min_comp <= current,
            decreases rest@.len(),
        {
            let m = rest.remove(0);
            if m < min_comp {
                min_comp = m;
            }
        }

        if min_comp < current {
            context.vertex_value = Some(min_comp);
            let targets = edge_targets(&context.edges);
            let mut rest = targets;
            while rest.len() > 0
                decreases rest@.len(),
            {
                let t = rest.remove(0);
                context.out_messages.push((t, min_comp));
            }
        }
    }
}

/// The targets of an adjacency list.
fn edge_targets(edges: &Vec<crate::types::Edge<u64, u8>>) -> (r: Vec<u64>)
    ensures
        r@.len() == edges@.len(),
        forall|i: int| 0 <= i < edges@.len() ==> r@[i] == edges@[i].target_id,
{
    let n = edges.len();
    let mut out: Vec<u64> = Vec::new();
    let mut i: usize = 0;
    while i < n
        invariant
            i <= n,
            n == edges@.len(),
            out@.len() == i,
            forall|j: int| 0 <= j < i ==> out@[j] == edges@[j].target_id,
        decreases n - i,
    {
        out.push(edges[i].target_id);
        i += 1;
    }
    out
}

impl VertexCentricComputeAlgorithm<u64, u64, u8, u64> for WccAlgorithm {
    type Func = WccFunction;

    fn name(&self) -> String {
        <String as StringExecFns>::from_str("wcc")
    }

    fn iterations(&self) -> u64 {
        self.iterations
    }

    fn create_function(&self) -> WccFunction {
        WccFunction
    }
}

} // verus!
