//! Checkpoint metadata and the layout of a job's checkpoint files.
//!
//! A checkpoint for iteration `N` of job `J` lives under
//! `{base}/{J}/cp_{N}/`: one snapshot per worker plus the serialized
//! driver-side inboxes. Its meta record stands at
//! `{base}/{J}/checkpoint_{N}.json`, and `{base}/{J}/checkpoint_latest.json`
//! is overwritten last, as the resume pointer.

use vstd::prelude::*;
use vstd::string::StringExecFns;

verus! {

/// The record that points at one checkpoint: its id, the iteration whose
/// end-of-iteration state it holds, the directory of the per-worker
/// snapshots, and the path of the serialized inboxes.
#[derive(Debug, Clone)]
pub struct CheckpointMeta {
    pub checkpoint_id: String,
    pub iteration: u64,
    pub checkpoint_dir: String,
    pub inboxes_path: String,
}

impl CheckpointMeta {
    /// The path of the meta record for one checkpoint of a job.
    pub fn meta_path(base_dir: &String, job_id: &String, checkpoint_id: &String) -> (r: String)
        ensures
            r@ == base_dir@ + "/"@ + job_id@ + "/checkpoint_"@ + checkpoint_id@ + ".json"@,
    {
        let mut s = base_dir.clone();
        s.append("/");
        s.append(job_id.as_str());
        s.append("/checkpoint_");
        s.append(checkpoint_id.as_str());
        s.append(".json");
        s
    }

    /// The path of a job's resume pointer, overwritten after each
    /// checkpoint.
    pub fn latest_path(base_dir: &String, job_id: &String) -> (r: String)
        ensures
            r@ == base_dir@ + "/"@ + job_id@ + "/checkpoint_latest.json"@,
    {
        let mut s = base_dir.clone();
        s.append("/");
        s.append(job_id.as_str());
        s.append("/checkpoint_latest.json");
        s
    }

    /// The snapshot directory of one checkpoint: `{base}/{job}/cp_{id}`.
    pub fn checkpoint_dir_path(base_dir: &String, job_id: &String, checkpoint_id: &String) -> (r:
        String)
        ensures
            r@ == base_dir@ + "/"@ + job_id@ + "/cp_"@ + checkpoint_id@,
    {
        let mut s = base_dir.clone();
        s.append("/");
        s.append(job_id.as_str());
        s.append("/cp_");
        s.append(checkpoint_id.as_str());
        s
    }

    /// The per-worker snapshot directory under a checkpoint directory.
    pub fn worker_dir_path(checkpoint_dir: &String, worker_index: &String) -> (r: String)
        ensures
            r@ == checkpoint_dir@ + "/worker_"@ + worker_index@,
    {
        let mut s = checkpoint_dir.clone();
        s.append("/worker_");
        s.append(worker_index.as_str());
        s
    }

    /// The inboxes blob path under a checkpoint directory.
    pub fn inboxes_path_of(checkpoint_dir: &String) -> (r: String)
        ensures
            r@ == checkpoint_dir@ + "/inboxes.bin"@,
    {
        let mut s = checkpoint_dir.clone();
        s.append("/inboxes.bin");
        s
    }
}

} // verus!
