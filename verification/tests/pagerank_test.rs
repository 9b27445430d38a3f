use geaflow::algorithm::{enc_u64, ComputeResult, DistributedAlgorithm};
use geaflow::driver::{inbox_frames, new_inboxes, partition_edges, partition_vertices,
    RoundCollector};
use geaflow::error::{GeaFlowError, GeaFlowResult};
use geaflow::protocol::{DriverToWorker, WorkerToDriver};
use geaflow::scheduler::CycleScheduler;
use geaflow::shuffle::Inboxes;
use geaflow::worker::{AlgorithmFactory, WorkerMachine};

// The PageRank plug-in as a binary would supply it: IEEE-754 doubles on the
// wire, outside the verified library.
struct PageRank {
    iterations: u64,
    alpha: f64,
    teleport: Option<f64>,
}

fn dec_f64(bytes: &[u8]) -> GeaFlowResult<f64> {
    if bytes.len() != 8 {
        return Err(GeaFlowError::Internal("expected 8 bytes".to_string()));
    }
    let mut b = [0u8; 8];
    b.copy_from_slice(bytes);
    Ok(f64::from_le_bytes(b))
}

fn enc_f64(v: f64) -> Vec<u8> {
    v.to_le_bytes().to_vec()
}

impl DistributedAlgorithm for PageRank {
    fn name(&self) -> String {
        "pagerank".to_string()
    }

    fn iterations(&self) -> u64 {
        self.iterations
    }

    fn compute_vertex(
        &mut self,
        _vertex_id: &Vec<u8>,
        vertex_value: Option<&Vec<u8>>,
        out_edges: &Vec<(Vec<u8>, Vec<u8>)>,
        messages: &Vec<Vec<u8>>,
        iteration: u64,
    ) -> ComputeResult {
        let out_degree = out_edges.len() as f64;
        let vertex_value = match vertex_value {
            Some(v) => dec_f64(v)?,
            None => 0.0,
        };
        if self.teleport.is_none() && vertex_value > 0.0 {
            self.teleport = Some((1.0 - self.alpha) * vertex_value);
        }
        if iteration == 1 {
            if out_degree > 0.0 {
                let msg = enc_f64(vertex_value / out_degree);
                let out = out_edges.iter().map(|(t, _)| (t.clone(), msg.clone())).collect();
                return Ok((None, out));
            }
            return Ok((None, Vec::new()));
        }
        let mut sum = 0.0;
        for m in messages {
            sum += dec_f64(m)?;
        }
        let pr = sum * self.alpha + self.teleport.unwrap_or(1.0 - self.alpha);
        let mut out = Vec::new();
        if out_degree > 0.0 {
            let msg = enc_f64(pr / out_degree);
            out = out_edges.iter().map(|(t, _)| (t.clone(), msg.clone())).collect();
        }
        Ok((Some(enc_f64(pr)), out))
    }
}

struct PrFactory;

impl AlgorithmFactory for PrFactory {
    type Algo = PageRank;

    fn create(&self, name: &String, iterations: u64, params: &Vec<u8>) -> GeaFlowResult<PageRank> {
        assert_eq!(name, "pagerank");
        let mut bits = [0u8; 8];
        bits.copy_from_slice(params);
        Ok(PageRank {
            iterations,
            alpha: f64::from_bits(u64::from_le_bytes(bits)),
            teleport: None,
        })
    }
}

#[test]
fn test_pagerank_two_cycle_two_workers() {
    // Two vertices with initial value 1.0 pointing at each other: that
    // distribution is an eigenvector of the transition matrix, so three
    // iterations leave both values at 1.0.
    let mut workers: Vec<WorkerMachine<PrFactory>> =
        (0..2).map(|_| WorkerMachine::new(PrFactory)).collect();
    let vertices: Vec<(Vec<u8>, Vec<u8>)> =
        vec![1u64, 2].into_iter().map(|id| (enc_u64(id), enc_f64(1.0))).collect();
    let edges: Vec<(Vec<u8>, Vec<u8>, Vec<u8>)> = vec![(1u64, 2u64), (2, 1)]
        .into_iter()
        .map(|(s, t)| (enc_u64(s), enc_u64(t), vec![0u8]))
        .collect();
    let v_parts = partition_vertices(vertices, 2);
    let e_parts = partition_edges(edges, 2);
    for (i, (v, e)) in v_parts.into_iter().zip(e_parts.into_iter()).enumerate() {
        workers[i]
            .handle_frame(DriverToWorker::LoadGraph { vertices: v, edges: e })
            .unwrap();
    }
    for w in workers.iter_mut() {
        w.handle_frame(DriverToWorker::SetAlgorithm {
            name: "pagerank".to_string(),
            iterations: 3,
            params: 0.85f64.to_bits().to_le_bytes().to_vec(),
        })
        .unwrap();
    }

    let mut scheduler = CycleScheduler::new(3, false, 0);
    let mut inboxes: Inboxes = new_inboxes(2);
    while let Some(iteration) = scheduler.next_iteration() {
        let mut collector = RoundCollector::new(iteration, 2);
        for (i, inbox) in inboxes.into_iter().enumerate() {
            for frame in inbox_frames(inbox, iteration) {
                let (replies, _) = workers[i].handle_frame(frame).unwrap();
                for reply in replies {
                    collector.accept(reply).unwrap();
                }
            }
        }
        let (next, any_msg) = collector.into_result();
        inboxes = next;
        scheduler.round_done(any_msg);
    }

    let mut decoded: Vec<(u64, f64)> = Vec::new();
    for w in workers.iter_mut() {
        let (replies, _) = w.handle_frame(DriverToWorker::FetchVertices).unwrap();
        match &replies[0] {
            WorkerToDriver::Vertices { vertices } => {
                for (id, value) in vertices {
                    decoded.push((
                        geaflow::algorithm::dec_u64(id).unwrap(),
                        dec_f64(value).unwrap(),
                    ));
                }
            }
            other => panic!("unexpected fetch reply: {other:?}"),
        }
    }
    decoded.sort_by_key(|(id, _)| *id);
    assert_eq!(decoded.len(), 2);
    assert!((decoded[0].1 - 1.0).abs() < 1e-9);
    assert!((decoded[1].1 - 1.0).abs() < 1e-9);
}
