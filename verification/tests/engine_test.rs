use geaflow::algorithm::{dec_u64, enc_u64};
use geaflow::driver::{inbox_frames, new_inboxes, partition_edges, partition_vertices,
    RoundCollector};
use geaflow::jobs::JobTable;
use geaflow::plan::{encode_job_spec, AlgorithmSpec, CheckpointSpec, FileSource, GraphSpec,
    JobMode, JobSpec};
use geaflow::protocol::{DriverToClient, DriverToWorker, WorkerToDriver};
use geaflow::scheduler::CycleScheduler;
use geaflow::shuffle::Inboxes;
use geaflow::worker::{BuiltinFactory, WorkerEffect, WorkerMachine};

fn new_workers(n: usize) -> Vec<WorkerMachine<BuiltinFactory>> {
    (0..n).map(|_| WorkerMachine::new(BuiltinFactory)).collect()
}

fn load_graph(
    workers: &mut Vec<WorkerMachine<BuiltinFactory>>,
    vertices: Vec<(Vec<u8>, Vec<u8>)>,
    edges: Vec<(Vec<u8>, Vec<u8>, Vec<u8>)>,
) {
    let n = workers.len();
    let v_parts = partition_vertices(vertices, n);
    let e_parts = partition_edges(edges, n);
    for (i, (v, e)) in v_parts.into_iter().zip(e_parts.into_iter()).enumerate() {
        let (replies, eff) = workers[i]
            .handle_frame(DriverToWorker::LoadGraph { vertices: v, edges: e })
            .unwrap();
        assert!(replies.is_empty());
        assert!(eff.is_none());
    }
}

fn set_algorithm(workers: &mut Vec<WorkerMachine<BuiltinFactory>>, iterations: u64) {
    for w in workers.iter_mut() {
        w.handle_frame(DriverToWorker::SetAlgorithm {
            name: "wcc".to_string(),
            iterations,
            params: Vec::new(),
        })
        .unwrap();
    }
}

/// One superstep round: distribute each worker's inbox in batch frames, run
/// the workers, and route their result batches into the next inboxes.
fn superstep_round(
    workers: &mut Vec<WorkerMachine<BuiltinFactory>>,
    iteration: u64,
    inboxes: Inboxes,
) -> Result<(Inboxes, bool), String> {
    let n = workers.len();
    let mut collector = RoundCollector::new(iteration, n);
    for (i, inbox) in inboxes.into_iter().enumerate() {
        let frames = inbox_frames(inbox, iteration);
        let mut replies: Vec<WorkerToDriver> = Vec::new();
        for frame in frames {
            let (mut rs, eff) = workers[i]
                .handle_frame(frame)
                .map_err(|e| String::from_utf8(e.message().into_bytes()).unwrap())?;
            assert!(eff.is_none());
            replies.append(&mut rs);
        }
        let mut done = false;
        for reply in replies {
            done = collector
                .accept(reply)
                .map_err(|e| String::from_utf8(e.message().into_bytes()).unwrap())?;
        }
        assert!(done, "worker {i} did not finish its round");
    }
    Ok(collector.into_result())
}

fn run_to_completion(
    workers: &mut Vec<WorkerMachine<BuiltinFactory>>,
    scheduler: &mut CycleScheduler,
) -> Result<(u64, Vec<Vec<u8>>), String> {
    let mut inboxes = new_inboxes(workers.len());
    let mut snapshots: Vec<Vec<u8>> = Vec::new();
    while let Some(iteration) = scheduler.next_iteration() {
        let (next, any_msg) = superstep_round(workers, iteration, inboxes)?;
        inboxes = next;
        let checkpoint_due = scheduler.round_done(any_msg);
        if checkpoint_due {
            snapshots = checkpoint_all(workers);
        }
    }
    let executed = scheduler.result().unwrap().executed_iterations;
    Ok((executed, snapshots))
}

/// Snapshot every worker's state, as a `CreateCheckpoint` broadcast would.
fn checkpoint_all(workers: &mut Vec<WorkerMachine<BuiltinFactory>>) -> Vec<Vec<u8>> {
    let mut snapshots = Vec::new();
    for w in workers.iter_mut() {
        let (replies, eff) = w
            .handle_frame(DriverToWorker::CreateCheckpoint {
                checkpoint_dir: "cp".to_string(),
            })
            .unwrap();
        assert!(replies.is_empty());
        match eff {
            Some(WorkerEffect::WriteSnapshot { bytes, .. }) => snapshots.push(bytes),
            _ => panic!("expected a snapshot effect"),
        }
        let acks = w.snapshot_written(true, String::new());
        assert!(matches!(acks[0], WorkerToDriver::CheckpointCreated));
    }
    snapshots
}

fn fetch_vertices(workers: &mut Vec<WorkerMachine<BuiltinFactory>>) -> Vec<(u64, u64)> {
    let mut out = Vec::new();
    for w in workers.iter_mut() {
        let (replies, _) = w.handle_frame(DriverToWorker::FetchVertices).unwrap();
        match &replies[0] {
            WorkerToDriver::Vertices { vertices } => {
                for (id, value) in vertices {
                    out.push((dec_u64(id).unwrap(), dec_u64(value).unwrap()));
                }
            },
            other => panic!("unexpected fetch reply: {other:?}"),
        }
    }
    out.sort();
    out
}

fn triangle_vertices() -> Vec<(Vec<u8>, Vec<u8>)> {
    vec![1u64, 2, 3].into_iter().map(|id| (enc_u64(id), enc_u64(id))).collect()
}

fn triangle_edges() -> Vec<(Vec<u8>, Vec<u8>, Vec<u8>)> {
    vec![(1u64, 2u64), (2, 1), (2, 3), (3, 2)]
        .into_iter()
        .map(|(s, t)| (enc_u64(s), enc_u64(t), vec![0u8]))
        .collect()
}

#[test]
fn test_wcc_triangle_two_workers() {
    let mut workers = new_workers(2);
    load_graph(&mut workers, triangle_vertices(), triangle_edges());
    set_algorithm(&mut workers, 10);
    let mut scheduler = CycleScheduler::new(10, false, 0);
    run_to_completion(&mut workers, &mut scheduler).unwrap();
    let decoded = fetch_vertices(&mut workers);
    assert_eq!(decoded, vec![(1, 1), (2, 1), (3, 1)]);
}

#[test]
fn test_wcc_converges_before_iteration_budget() {
    let mut workers = new_workers(2);
    load_graph(&mut workers, triangle_vertices(), triangle_edges());
    set_algorithm(&mut workers, 100);
    let mut scheduler = CycleScheduler::new(100, false, 0);
    let (executed, _) = run_to_completion(&mut workers, &mut scheduler).unwrap();
    assert!(executed < 100, "quiescence must end the run early, ran {executed}");
    let decoded = fetch_vertices(&mut workers);
    assert_eq!(decoded, vec![(1, 1), (2, 1), (3, 1)]);
}

#[test]
fn test_wcc_checkpoint_reload_round_trip() {
    let mut workers = new_workers(2);
    load_graph(&mut workers, triangle_vertices(), triangle_edges());
    set_algorithm(&mut workers, 2);

    // Run iteration 1 only, then checkpoint: the snapshot holds the
    // end-of-iteration-1 state, where WCC seeds every vertex with its own id.
    let mut scheduler = CycleScheduler::new(2, true, 1);
    let mut inboxes = new_inboxes(workers.len());
    let it = scheduler.next_iteration().unwrap();
    assert_eq!(it, 1);
    let (next, any_msg) = superstep_round(&mut workers, it, inboxes).unwrap();
    inboxes = next;
    let due = scheduler.round_done(any_msg);
    assert!(due);
    let snapshots = checkpoint_all(&mut workers);

    // Run the job to its two-iteration end: the far vertex has only heard
    // from the middle one so far.
    while let Some(iteration) = scheduler.next_iteration() {
        let (next, any_msg) = superstep_round(&mut workers, iteration, inboxes).unwrap();
        inboxes = next;
        scheduler.round_done(any_msg);
    }
    assert_eq!(fetch_vertices(&mut workers), vec![(1, 1), (2, 1), (3, 2)]);

    // Reload the iteration-1 checkpoint on fresh workers and fetch at once.
    let mut reloaded = new_workers(2);
    for (w, bytes) in reloaded.iter_mut().zip(snapshots.iter()) {
        let (replies, eff) = w
            .handle_frame(DriverToWorker::LoadCheckpoint { checkpoint_dir: "cp".to_string() })
            .unwrap();
        assert!(replies.is_empty());
        assert!(matches!(eff, Some(WorkerEffect::ReadSnapshot { .. })));
        let acks = w.install_snapshot(bytes);
        assert!(matches!(acks[0], WorkerToDriver::CheckpointLoaded));
    }
    assert_eq!(fetch_vertices(&mut reloaded), vec![(1, 1), (2, 2), (3, 3)]);
}

#[test]
fn test_checkpoint_then_resume_matches_uninterrupted_run() {
    // Uninterrupted run of the triangle, two iterations with messages.
    let mut all_at_once = new_workers(2);
    load_graph(&mut all_at_once, triangle_vertices(), triangle_edges());
    set_algorithm(&mut all_at_once, 10);
    let mut scheduler = CycleScheduler::new(10, false, 0);
    run_to_completion(&mut all_at_once, &mut scheduler).unwrap();
    let expected = fetch_vertices(&mut all_at_once);

    // The same job run with a checkpoint every iteration, reloaded at
    // iteration 1 and continued from there on fresh workers.
    let mut first_leg = new_workers(2);
    load_graph(&mut first_leg, triangle_vertices(), triangle_edges());
    set_algorithm(&mut first_leg, 10);
    let mut sched1 = CycleScheduler::new(10, true, 1);
    let mut inboxes = new_inboxes(2);
    let it = sched1.next_iteration().unwrap();
    let (next, any_msg) = superstep_round(&mut first_leg, it, inboxes).unwrap();
    let inbox_entries: Vec<_> = next.iter().map(|i| i.entries.clone()).collect();
    assert!(sched1.round_done(any_msg));
    let snapshots = checkpoint_all(&mut first_leg);

    let mut resumed = new_workers(2);
    set_algorithm(&mut resumed, 10);
    for (w, bytes) in resumed.iter_mut().zip(snapshots.iter()) {
        w.handle_frame(DriverToWorker::LoadCheckpoint { checkpoint_dir: "cp".to_string() })
            .unwrap();
        w.install_snapshot(bytes);
    }
    let mut sched2 = CycleScheduler::resume(10, true, 1, 1);
    let mut inboxes: Inboxes = inbox_entries
        .into_iter()
        .map(geaflow::shuffle::Inbox::from_entries)
        .collect();
    while let Some(iteration) = sched2.next_iteration() {
        let (next, any_msg) = superstep_round(&mut resumed, iteration, inboxes).unwrap();
        inboxes = next;
        sched2.round_done(any_msg);
    }
    assert_eq!(fetch_vertices(&mut resumed), expected);
}

#[test]
fn test_worker_crash_fails_round() {
    // A dropped worker surfaces as an error frame (or a closed connection);
    // the round collector turns either into a job-fatal error.
    let mut collector = RoundCollector::new(1, 2);
    let crash = WorkerToDriver::Error { message: "connection reset".to_string() };
    assert!(collector.accept(crash).is_err());

    // A best-effort shutdown afterwards must not panic.
    let mut workers = new_workers(2);
    load_graph(&mut workers, triangle_vertices(), triangle_edges());
    for w in workers.iter_mut() {
        let (replies, eff) = w.handle_frame(DriverToWorker::Shutdown).unwrap();
        assert!(replies.is_empty());
        assert!(eff.is_none());
    }
}

#[test]
fn test_submit_job_via_job_table() {
    let job = JobSpec {
        job_id: "job_test".to_string(),
        name: "wcc".to_string(),
        mode: JobMode::Distributed,
        graph: GraphSpec {
            vertices: FileSource::Csv { path: "v.csv".to_string() },
            edges: FileSource::Csv { path: "e.csv".to_string() },
        },
        algorithm: AlgorithmSpec::Wcc { iterations: 10 },
        checkpoint: CheckpointSpec {
            enabled: false,
            interval_iters: 0,
            base_dir: "/tmp/geaflow-checkpoints".to_string(),
        },
    };
    let bytes = encode_job_spec(&job);

    let mut table = JobTable::new();
    let (reply, accepted) = table.submit(&bytes);
    match reply {
        DriverToClient::JobAccepted { job_id } => assert_eq!(job_id, "job_test"),
        other => panic!("unexpected submit reply: {other:?}"),
    }
    let accepted = accepted.unwrap();
    match table.status_reply(&"job_test".to_string()) {
        DriverToClient::JobStatus { state, .. } => assert_eq!(state, "running"),
        other => panic!("unexpected status reply: {other:?}"),
    }

    // Run the accepted job on in-memory workers and publish the result.
    let mut workers = new_workers(2);
    load_graph(&mut workers, triangle_vertices(), triangle_edges());
    set_algorithm(&mut workers, accepted.algorithm.iterations());
    let mut scheduler = CycleScheduler::new(accepted.algorithm.iterations(), false, 0);
    run_to_completion(&mut workers, &mut scheduler).unwrap();
    let mut result: Vec<(Vec<u8>, Vec<u8>)> = Vec::new();
    for w in workers.iter_mut() {
        let (replies, _) = w.handle_frame(DriverToWorker::FetchVertices).unwrap();
        match replies.into_iter().next().unwrap() {
            WorkerToDriver::Vertices { vertices } => result.extend(vertices),
            other => panic!("unexpected fetch reply: {other:?}"),
        }
    }
    table.mark_finished(&accepted.job_id, result);

    match table.status_reply(&"job_test".to_string()) {
        DriverToClient::JobStatus { state, .. } => assert_eq!(state, "finished"),
        other => panic!("unexpected status reply: {other:?}"),
    }
    match table.vertices_reply(&"job_test".to_string()) {
        DriverToClient::Vertices { vertices, .. } => {
            let mut decoded: Vec<(u64, u64)> = vertices
                .iter()
                .map(|(id, value)| (dec_u64(id).unwrap(), dec_u64(value).unwrap()))
                .collect();
            decoded.sort();
            assert_eq!(decoded, vec![(1, 1), (2, 1), (3, 1)]);
        },
        other => panic!("unexpected vertices reply: {other:?}"),
    }
}
