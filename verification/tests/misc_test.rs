use geaflow::checkpoint::CheckpointMeta;
use geaflow::config::Configuration;
use geaflow::http::{find_subslice, text_response};
use geaflow::master::MasterRegistry;
use geaflow::pipeline::{ensure_local, Environment};
use geaflow::plan::{AlgorithmSpec, CheckpointSpec, ExecutionPlan, FileSource, GraphSpec, JobMode,
    JobSpec};
use geaflow::scheduler::CycleScheduler;

#[test]
fn test_configuration_put_get() {
    let mut cfg = Configuration::new();
    cfg.put("a".to_string(), "1".to_string());
    cfg.put("b".to_string(), "2".to_string());
    cfg.put("a".to_string(), "3".to_string());
    assert_eq!(cfg.get(&"a".to_string()), Some(&"3".to_string()));
    assert_eq!(cfg.get(&"b".to_string()), Some(&"2".to_string()));
    assert_eq!(cfg.get(&"c".to_string()), None);
    assert_eq!(cfg.get_string(&"c".to_string(), &"dflt".to_string()), "dflt");
    assert_eq!(cfg.get_string(&"a".to_string(), &"dflt".to_string()), "3");
}

#[test]
fn test_checkpoint_paths() {
    let base = "/data/cp".to_string();
    let job = "job1".to_string();
    let id = "7".to_string();
    assert_eq!(
        CheckpointMeta::meta_path(&base, &job, &id),
        "/data/cp/job1/checkpoint_7.json"
    );
    assert_eq!(
        CheckpointMeta::latest_path(&base, &job),
        "/data/cp/job1/checkpoint_latest.json"
    );
    let dir = CheckpointMeta::checkpoint_dir_path(&base, &job, &id);
    assert_eq!(dir, "/data/cp/job1/cp_7");
    assert_eq!(CheckpointMeta::worker_dir_path(&dir, &"0".to_string()), "/data/cp/job1/cp_7/worker_0");
    assert_eq!(CheckpointMeta::inboxes_path_of(&dir), "/data/cp/job1/cp_7/inboxes.bin");
}

#[test]
fn test_master_registry_ttl_purge_and_sorted_output() {
    let mut reg = MasterRegistry::new();
    reg.record("10.0.0.2:9".to_string(), 1_000);
    reg.record("10.0.0.1:9".to_string(), 1_000);
    reg.record("10.0.0.3:9".to_string(), 5_000);
    // Heartbeat refreshes one of the early entries.
    reg.record("10.0.0.2:9".to_string(), 5_000);

    let alive = reg.alive_workers(6_000, 2_000);
    assert_eq!(alive, vec!["10.0.0.2:9".to_string(), "10.0.0.3:9".to_string()]);

    // A later poll past everyone's TTL leaves no one.
    let alive = reg.alive_workers(20_000, 2_000);
    assert!(alive.is_empty());
}

#[test]
fn test_execution_plan_from_job_spec() {
    let job = JobSpec {
        job_id: "j".to_string(),
        name: "n".to_string(),
        mode: JobMode::Distributed,
        graph: GraphSpec {
            vertices: FileSource::Csv { path: "v".to_string() },
            edges: FileSource::Csv { path: "e".to_string() },
        },
        algorithm: AlgorithmSpec::Wcc { iterations: 12 },
        checkpoint: CheckpointSpec { enabled: false, interval_iters: 0, base_dir: String::new() },
    };
    let plan = ExecutionPlan::from_job_spec(&job, 2, 2);
    assert_eq!(plan.algorithm_name, "wcc");
    assert_eq!(plan.max_iterations, 12);
    assert_eq!(plan.worker_count, 2);
}

#[test]
fn test_ensure_local_rejects_distributed() {
    assert!(ensure_local(&Environment::local()).is_ok());
    assert!(ensure_local(&Environment::distributed()).is_err());
}

#[test]
fn test_scheduler_iterations_are_consecutive_and_checkpoints_due_on_interval() {
    let mut m = CycleScheduler::new(5, true, 2);
    let mut seen = Vec::new();
    let mut due_at = Vec::new();
    while let Some(it) = m.next_iteration() {
        seen.push(it);
        if m.round_done(true) {
            due_at.push(it);
        }
    }
    assert_eq!(seen, vec![1, 2, 3, 4, 5]);
    assert_eq!(due_at, vec![2, 4]);
    assert_eq!(m.result().unwrap().executed_iterations, 5);
}

#[test]
fn test_scheduler_resume_continues_after_checkpoint() {
    let mut m = CycleScheduler::resume(5, true, 2, 3);
    assert_eq!(m.next_iteration(), Some(4));
    m.round_done(true);
    assert_eq!(m.next_iteration(), Some(5));
    m.round_done(false);
    assert_eq!(m.next_iteration(), None);
    assert_eq!(m.result().unwrap().executed_iterations, 5);
}

#[test]
fn test_find_subslice_and_text_response() {
    let haystack = b"content-length: 42\r\n\r\nbody".to_vec();
    assert_eq!(find_subslice(&haystack, &b"\r\n\r\n".to_vec()), Some(18));
    assert_eq!(find_subslice(&haystack, &b"nope".to_vec()), None);
    assert_eq!(find_subslice(&haystack, &Vec::new()), Some(0));

    let resp = text_response(200, "ok".to_string());
    assert_eq!(resp.status, 200);
    assert_eq!(resp.content_type, "text/plain");
    assert_eq!(resp.body, b"ok".to_vec());
}
