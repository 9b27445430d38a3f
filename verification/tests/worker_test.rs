use geaflow::algorithm::{dec_u64, enc_u64, WccAlgorithm};
use geaflow::protocol::{DriverToWorker, WorkerToDriver};
use geaflow::worker::{BuiltinFactory, WorkerMachine, BATCH_ENTRIES};

#[test]
fn test_wcc_compute_vertex_first_iteration_seeds_own_id() {
    let algo = WccAlgorithm::new(10);
    let out_edges = vec![(enc_u64(2), vec![0u8]), (enc_u64(3), vec![0u8])];
    let (new_value, outbox) = algo
        .compute_wcc(&enc_u64(5), Some(&enc_u64(5)), &out_edges, &Vec::new(), 1)
        .unwrap();
    assert_eq!(dec_u64(&new_value.unwrap()), Some(5));
    assert_eq!(outbox.len(), 2);
    assert_eq!(dec_u64(&outbox[0].0), Some(2));
    assert_eq!(dec_u64(&outbox[0].1), Some(5));
    assert_eq!(dec_u64(&outbox[1].0), Some(3));
}

#[test]
fn test_wcc_compute_vertex_adopts_minimum_and_announces() {
    let algo = WccAlgorithm::new(10);
    let out_edges = vec![(enc_u64(9), vec![0u8])];
    let messages = vec![enc_u64(7), enc_u64(2), enc_u64(4)];
    let (new_value, outbox) = algo
        .compute_wcc(&enc_u64(5), Some(&enc_u64(5)), &out_edges, &messages, 2)
        .unwrap();
    assert_eq!(dec_u64(&new_value.unwrap()), Some(2));
    assert_eq!(outbox.len(), 1);
    assert_eq!(dec_u64(&outbox[0].1), Some(2));

    // No improvement: no update and no messages.
    let (no_value, silent) = algo
        .compute_wcc(&enc_u64(5), Some(&enc_u64(1)), &out_edges, &messages, 2)
        .unwrap();
    assert!(no_value.is_none());
    assert!(silent.is_empty());
}

#[test]
fn test_wcc_compute_vertex_rejects_malformed_bytes() {
    let algo = WccAlgorithm::new(10);
    let err = algo
        .compute_wcc(&vec![1, 2, 3], None, &Vec::new(), &Vec::new(), 1)
        .unwrap_err();
    assert!(!err.message().is_empty());
}

#[test]
fn test_superstep_outbox_is_sliced_with_single_terminal_frame() {
    // A hub with more out-edges than one frame may carry: its first
    // iteration floods every neighbour, so the outbox must arrive in
    // several slices with exactly the final one marked last.
    let mut worker: WorkerMachine<BuiltinFactory> = WorkerMachine::new(BuiltinFactory);
    let neighbours = (BATCH_ENTRIES as u64) + 44;
    let vertices = vec![(enc_u64(0), enc_u64(0))];
    let edges: Vec<(Vec<u8>, Vec<u8>, Vec<u8>)> = (1..=neighbours)
        .map(|t| (enc_u64(0), enc_u64(t), vec![0u8]))
        .collect();
    worker
        .handle_frame(DriverToWorker::LoadGraph { vertices, edges })
        .unwrap();
    worker
        .handle_frame(DriverToWorker::SetAlgorithm {
            name: "wcc".to_string(),
            iterations: 1,
            params: Vec::new(),
        })
        .unwrap();
    let (replies, _) = worker
        .handle_frame(DriverToWorker::SuperstepBatch { iteration: 1, inbox: vec![], last: true })
        .unwrap();
    assert_eq!(replies.len(), 2);
    let mut total = 0usize;
    for (i, reply) in replies.iter().enumerate() {
        match reply {
            WorkerToDriver::SuperstepResultBatch { iteration, outbox, last } => {
                assert_eq!(*iteration, 1);
                assert!(outbox.len() <= BATCH_ENTRIES);
                assert_eq!(*last, i == 1);
                total += outbox.len();
            }
            other => panic!("unexpected reply: {other:?}"),
        }
    }
    assert_eq!(total, neighbours as usize);
}

#[test]
fn test_empty_superstep_still_sends_terminal_frame() {
    let mut worker: WorkerMachine<BuiltinFactory> = WorkerMachine::new(BuiltinFactory);
    worker
        .handle_frame(DriverToWorker::SetAlgorithm {
            name: "wcc".to_string(),
            iterations: 1,
            params: Vec::new(),
        })
        .unwrap();
    let (replies, _) = worker
        .handle_frame(DriverToWorker::SuperstepBatch { iteration: 1, inbox: vec![], last: true })
        .unwrap();
    assert_eq!(replies.len(), 1);
    match &replies[0] {
        WorkerToDriver::SuperstepResultBatch { outbox, last, .. } => {
            assert!(outbox.is_empty());
            assert!(last);
        }
        other => panic!("unexpected reply: {other:?}"),
    }
}

#[test]
fn test_unknown_algorithm_is_rejected() {
    let mut worker: WorkerMachine<BuiltinFactory> = WorkerMachine::new(BuiltinFactory);
    let err = worker
        .handle_frame(DriverToWorker::SetAlgorithm {
            name: "nonsense".to_string(),
            iterations: 1,
            params: Vec::new(),
        })
        .unwrap_err();
    assert!(matches!(err, geaflow::error::GeaFlowError::InvalidArgument(_)));
}

#[test]
fn test_shutdown_during_ready_loses_nothing() {
    // Shutdown safety: a shutdown between supersteps is a clean
    // termination; everything written to the store survives in it.
    let mut worker: WorkerMachine<BuiltinFactory> = WorkerMachine::new(BuiltinFactory);
    worker
        .handle_frame(DriverToWorker::LoadGraph {
            vertices: vec![(enc_u64(1), enc_u64(100))],
            edges: vec![(enc_u64(1), enc_u64(2), vec![0u8])],
        })
        .unwrap();
    let before = worker.store.snapshot_bytes();
    let (replies, eff) = worker.handle_frame(DriverToWorker::Shutdown).unwrap();
    assert!(replies.is_empty());
    assert!(eff.is_none());
    assert!(worker.terminated);
    assert_eq!(worker.store.snapshot_bytes(), before);
}
