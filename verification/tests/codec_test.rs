use geaflow::plan::{decode_job_spec, encode_job_spec, AlgorithmSpec, CheckpointSpec, FileSource,
    GraphSpec, JobMode, JobSpec};
use geaflow::protocol::{decode_d2w, decode_master_request, decode_w2d, encode_d2w,
    encode_master_request, encode_w2d, DriverToMaster, DriverToWorker, MasterRequest,
    WorkerToDriver, WorkerToMaster};
use geaflow::wire::{encode_frame, frame_payload_len};

#[test]
fn test_d2w_roundtrip_superstep_batch() {
    let msg = DriverToWorker::SuperstepBatch {
        iteration: 3,
        inbox: vec![
            (vec![1, 2, 3], vec![vec![9], vec![], vec![8, 8]]),
            (vec![], vec![vec![0]]),
        ],
        last: true,
    };
    let bytes = encode_d2w(&msg);
    match decode_d2w(&bytes) {
        Some(DriverToWorker::SuperstepBatch { iteration, inbox, last }) => {
            assert_eq!(iteration, 3);
            assert!(last);
            assert_eq!(inbox.len(), 2);
            assert_eq!(inbox[0].0, vec![1, 2, 3]);
            assert_eq!(inbox[0].1, vec![vec![9], vec![], vec![8, 8]]);
            assert_eq!(inbox[1].0, Vec::<u8>::new());
            assert_eq!(inbox[1].1, vec![vec![0]]);
        }
        other => panic!("unexpected decode: {other:?}"),
    }
}

#[test]
fn test_d2w_roundtrip_all_variants() {
    let msgs = vec![
        DriverToWorker::LoadGraph {
            vertices: vec![(vec![1], vec![2])],
            edges: vec![(vec![1], vec![2], vec![0])],
        },
        DriverToWorker::LoadGraphBatch { vertices: vec![], edges: vec![], last: true },
        DriverToWorker::SetAlgorithm {
            name: "wcc".to_string(),
            iterations: 10,
            params: vec![1, 2],
        },
        DriverToWorker::Superstep { iteration: 1, inbox: vec![] },
        DriverToWorker::CreateCheckpoint { checkpoint_dir: "cp/dir".to_string() },
        DriverToWorker::LoadCheckpoint { checkpoint_dir: "cp/dir".to_string() },
        DriverToWorker::FetchVertices,
        DriverToWorker::DumpVerticesCsv { output_path: "out.csv".to_string() },
        DriverToWorker::Shutdown,
    ];
    for msg in msgs {
        let bytes = encode_d2w(&msg);
        let back = decode_d2w(&bytes).expect("decode must succeed on an encoding");
        assert_eq!(format!("{msg:?}"), format!("{back:?}"));
    }
}

#[test]
fn test_w2d_roundtrip_all_variants() {
    let msgs = vec![
        WorkerToDriver::Ready,
        WorkerToDriver::GraphLoaded { last: false },
        WorkerToDriver::SuperstepResult { iteration: 2, outbox: vec![(vec![1], vec![2])] },
        WorkerToDriver::SuperstepResultBatch { iteration: 2, outbox: vec![], last: true },
        WorkerToDriver::CheckpointCreated,
        WorkerToDriver::CheckpointLoaded,
        WorkerToDriver::Vertices { vertices: vec![(vec![1], vec![9])] },
        WorkerToDriver::VerticesDumped { output_path: "out.csv".to_string() },
        WorkerToDriver::Error { message: "boom".to_string() },
    ];
    for msg in msgs {
        let bytes = encode_w2d(&msg);
        let back = decode_w2d(&bytes).expect("decode must succeed on an encoding");
        assert_eq!(format!("{msg:?}"), format!("{back:?}"));
    }
}

#[test]
fn test_master_request_roundtrip() {
    let msgs = vec![
        MasterRequest::Worker(WorkerToMaster::Register { worker_addr: "127.0.0.1:9".to_string() }),
        MasterRequest::Worker(WorkerToMaster::Heartbeat { worker_addr: "127.0.0.1:9".to_string() }),
        MasterRequest::Driver(DriverToMaster::GetWorkers),
    ];
    for msg in msgs {
        let bytes = encode_master_request(&msg);
        let back = decode_master_request(&bytes).unwrap();
        assert_eq!(format!("{msg:?}"), format!("{back:?}"));
    }
}

#[test]
fn test_decode_rejects_garbage() {
    assert!(decode_d2w(&vec![]).is_none());
    assert!(decode_d2w(&vec![99]).is_none());
    let mut bytes = encode_d2w(&DriverToWorker::Shutdown);
    bytes.push(0);
    assert!(decode_d2w(&bytes).is_none(), "trailing bytes must be refused");
}

#[test]
fn test_frame_header_carries_payload_length() {
    let payload: Vec<u8> = vec![7, 8, 9];
    let framed = encode_frame(&payload);
    assert_eq!(framed.len(), 4 + payload.len());
    let header: Vec<u8> = framed[..4].to_vec();
    assert_eq!(frame_payload_len(&header) as usize, payload.len());
    assert_eq!(&framed[4..], &payload[..]);
}

#[test]
fn test_job_spec_roundtrip() {
    let job = JobSpec {
        job_id: "j1".to_string(),
        name: "wcc".to_string(),
        mode: JobMode::Distributed,
        graph: GraphSpec {
            vertices: FileSource::Csv { path: "v.csv".to_string() },
            edges: FileSource::Csv { path: "e.csv".to_string() },
        },
        algorithm: AlgorithmSpec::PageRank { iterations: 3, alpha_bits: 0.85f64.to_bits() },
        checkpoint: CheckpointSpec {
            enabled: true,
            interval_iters: 1,
            base_dir: "/tmp/cp".to_string(),
        },
    };
    let bytes = encode_job_spec(&job);
    let back = decode_job_spec(&bytes).unwrap();
    assert_eq!(format!("{job:?}"), format!("{back:?}"));
    match back.algorithm {
        AlgorithmSpec::PageRank { alpha_bits, .. } => {
            assert_eq!(f64::from_bits(alpha_bits), 0.85);
        }
        other => panic!("unexpected algorithm: {other:?}"),
    }
}
