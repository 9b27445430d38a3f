use geaflow::graph::{ComputeContext, InMemoryGraph, VertexCentricComputeFunction,
    VertexCentricComputeFuncContext};
use geaflow::types::{Edge, Vertex};
use geaflow::wcc::WccAlgorithm;

#[derive(Clone)]
struct SSSPAlgorithm {
    src_id: i32,
}

impl VertexCentricComputeFunction<i32, i32, i32, i32> for SSSPAlgorithm {
    fn compute(
        &mut self,
        vertex_id: &i32,
        messages: Vec<i32>,
        context: &mut ComputeContext<i32, i32, i32, i32>,
    ) {
        let current_val = context.vertex_value().cloned().unwrap_or(i32::MAX);
        let mut min_dist = current_val;
        let mut updated = false;

        if context.iteration() == 1 && *vertex_id == self.src_id {
            min_dist = 0;
            updated = true;
        }

        for msg in messages {
            if msg < min_dist {
                min_dist = msg;
                updated = true;
            }
        }

        if updated {
            context.set_new_vertex_value(min_dist);
            let edges: Vec<_> = context.edges().clone();
            for edge in edges {
                context.send_message(edge.target_id, min_dist + edge.value);
            }
        }
    }
}

#[test]
fn test_sssp() {
    let vertices = vec![
        Vertex::new(1, i32::MAX),
        Vertex::new(2, i32::MAX),
        Vertex::new(3, i32::MAX),
    ];

    let edges = vec![
        Edge::new(1, 2, 10),
        Edge::new(2, 3, 20),
        Edge::new(1, 3, 100), // longer path
    ];

    let graph = InMemoryGraph::new(vertices, edges);
    let result_graph = graph.compute(SSSPAlgorithm { src_id: 1 }, 1);

    let vertices = result_graph.vertices();
    let v3 = vertices.iter().find(|v| v.id == 3).unwrap();
    assert_eq!(v3.value, 30); // 1->2->3 (10+20=30) < 1->3 (100)
}

#[test]
fn test_local_wcc_in_memory() {
    let vertices = vec![
        Vertex::new(1u64, 1u64),
        Vertex::new(2, 2),
        Vertex::new(3, 3),
    ];
    let edges = vec![
        Edge::new(1u64, 2u64, 0u8),
        Edge::new(2u64, 1u64, 0u8),
        Edge::new(2u64, 3u64, 0u8),
        Edge::new(3u64, 2u64, 0u8),
    ];

    let graph = InMemoryGraph::new(vertices, edges);
    let algo = WccAlgorithm::new(10);
    let result = graph.compute_algorithm(&algo, 2);

    let mut vertices = result.vertices();
    vertices.sort_by_key(|v| v.id);

    assert_eq!(vertices.len(), 3);
    assert_eq!(vertices[0].value, 1);
    assert_eq!(vertices[1].value, 1);
    assert_eq!(vertices[2].value, 1);
}
