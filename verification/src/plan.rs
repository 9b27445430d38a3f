//! Job specifications and the execution plan derived from them.
//!
//! A `JobSpec` is immutable after submission: the job id and name, the run
//! mode, the graph sources, the algorithm with its iteration budget, and the
//! checkpoint policy. A PageRank damping factor travels as the bit pattern
//! of its IEEE-754 double, so the spec stays a plain-value record. A job
//! spec crosses the wire as bytes, with a verified codec and its round-trip
//! law.

use vstd::prelude::*;
use vstd::bytes::{spec_u64_to_le_bytes, lemma_auto_spec_u64_to_from_le_bytes};
use crate::wire::{
    spec_lp_string, spec_enc_bool, spec_take_bool, spec_take_u64, spec_take_string, put_bool,
    put_u64, put_string, take_bool, take_u64, take_string, wf_string_elem, lemma_take_bool,
    lemma_take_u64, lemma_take_string,
};

verus! {

/// Where a job runs: in one process, or across workers.
#[derive(Debug, Clone)]
pub enum JobMode {
    Local,
    Distributed,
}

/// A graph input source.
#[derive(Debug, Clone)]
pub enum FileSource {
    Csv { path: String },
}

/// The vertex and edge sources of a job's graph.
#[derive(Debug, Clone)]
pub struct GraphSpec {
    pub vertices: FileSource,
    pub edges: FileSource,
}

/// The algorithm a job runs. `alpha_bits` carries the PageRank damping
/// factor as the bit pattern of its IEEE-754 double.
#[derive(Debug, Clone)]
pub enum AlgorithmSpec {
    Wcc { iterations: u64 },
    PageRank { iterations: u64, alpha_bits: u64 },
}

impl AlgorithmSpec {
    /// The iteration budget the algorithm declares.
    pub fn iterations(&self) -> (r: u64)
        ensures
            r == self.spec_iterations(),
    {
        match self {
            AlgorithmSpec::Wcc { iterations } => *iterations,
            AlgorithmSpec::PageRank { iterations, .. } => *iterations,
        }
    }

    pub open spec fn spec_iterations(&self) -> u64 {
        match self {
            AlgorithmSpec::Wcc { iterations } => *iterations,
            AlgorithmSpec::PageRank { iterations, .. } => *iterations,
        }
    }
}

/// A job's checkpoint policy: whether to checkpoint, how often, and where.
#[derive(Debug, Clone)]
pub struct CheckpointSpec {
    pub enabled: bool,
    pub interval_iters: u64,
    pub base_dir: String,
}

/// A whole job, immutable after submission.
#[derive(Debug, Clone)]
pub struct JobSpec {
    pub job_id: String,
    pub name: String,
    pub mode: JobMode,
    pub graph: GraphSpec,
    pub algorithm: AlgorithmSpec,
    pub checkpoint: CheckpointSpec,
}

/// The mathematical shape of a job spec.
pub struct JobSpecView {
    pub job_id: Seq<char>,
    pub name: Seq<char>,
    pub distributed: bool,
    pub vertices_path: Seq<char>,
    pub edges_path: Seq<char>,
    pub pagerank: bool,
    pub iterations: u64,
    pub alpha_bits: u64,
    pub checkpoint_enabled: bool,
    pub checkpoint_interval: u64,
    pub checkpoint_base_dir: Seq<char>,
}

impl View for JobSpec {
    type V = JobSpecView;

    open spec fn view(&self) -> JobSpecView {
        JobSpecView {
            job_id: self.job_id@,
            name: self.name@,
            distributed: self.mode is Distributed,
            vertices_path: match self.graph.vertices {
                FileSource::Csv { path } => path@,
            },
            edges_path: match self.graph.edges {
                FileSource::Csv { path } => path@,
            },
            pagerank: self.algorithm is PageRank,
            iterations: self.algorithm.spec_iterations(),
            alpha_bits: match self.algorithm {
                AlgorithmSpec::PageRank { alpha_bits, .. } => alpha_bits,
                _ => 0,
            },
            checkpoint_enabled: self.checkpoint.enabled,
            checkpoint_interval: self.checkpoint.interval_iters,
            checkpoint_base_dir: self.checkpoint.base_dir@,
        }
    }
}

/// Every string of the spec fits its length prefix.
pub open spec fn wf_job_spec(v: JobSpecView) -> bool {
    &&& wf_string_elem(v.job_id)
    &&& wf_string_elem(v.name)
    &&& wf_string_elem(v.vertices_path)
    &&& wf_string_elem(v.edges_path)
    &&& wf_string_elem(v.checkpoint_base_dir)
}

/// The byte encoding of a job spec.
pub open spec fn spec_enc_job_spec(v: JobSpecView) -> Seq<u8> {
    spec_lp_string(v.job_id) + spec_lp_string(v.name) + spec_enc_bool(v.distributed)
        + spec_lp_string(v.vertices_path) + spec_lp_string(v.edges_path) + spec_enc_bool(
        v.pagerank,
    ) + spec_u64_to_le_bytes(v.iterations) + spec_u64_to_le_bytes(v.alpha_bits) + spec_enc_bool(
        v.checkpoint_enabled,
    ) + spec_u64_to_le_bytes(v.checkpoint_interval) + spec_lp_string(v.checkpoint_base_dir)
}

/// Parse a whole buffer as a job spec; trailing bytes are refused.
pub open spec fn spec_dec_job_spec(b: Seq<u8>) -> Option<JobSpecView> {
    match spec_take_string(b, 0) {
        None => None,
        Some((job_id, p1)) => match spec_take_string(b, p1) {
            None => None,
            Some((name, p2)) => match spec_take_bool(b, p2) {
                None => None,
                Some((distributed, p3)) => match spec_take_string(b, p3) {
                    None => None,
                    Some((vertices_path, p4)) => match spec_take_string(b, p4) {
                        None => None,
                        Some((edges_path, p5)) => match spec_take_bool(b, p5) {
                            None => None,
                            Some((pagerank, p6)) => match spec_take_u64(b, p6) {
                                None => None,
                                Some((iterations, p7)) => match spec_take_u64(b, p7) {
                                    None => None,
                                    Some((alpha_bits, p8)) => match spec_take_bool(b, p8) {
                                        None => None,
                                        Some((checkpoint_enabled, p9)) => match spec_take_u64(
                                            b,
                                            p9,
                                        ) {
                                            None => None,
                                            Some((checkpoint_interval, p10)) => match
                                                spec_take_string(b, p10) {
                                                None => None,
                                                Some((checkpoint_base_dir, p11)) => {
                                                    if p11 == b.len() {
                                                        Some(
                                                            JobSpecView {
                                                                job_id,
                                                                name,
                                                                distributed,
                                                                vertices_path,
                                                                edges_path,
                                                                pagerank,
                                                                iterations,
                                                                alpha_bits: if pagerank {
                                                                    alpha_bits
                                                                } else {
                                                                    0
                                                                },
                                                                checkpoint_enabled,
                                                                checkpoint_interval,
                                                                checkpoint_base_dir,
                                                            },
                                                        )
                                                    } else {
                                                        None
                                                    }
                                                },
                                            },
                                        },
                                    },
                                },
                            },
                        },
                    },
                },
            },
        },
    }
}

/// Encode a job spec to bytes.
pub fn encode_job_spec(job: &JobSpec) -> (r: Vec<u8>)
    ensures
        r@ == spec_enc_job_spec(job@),
{
    let mut out: Vec<u8> = Vec::new();
    put_string(&mut out, &job.job_id);
    put_string(&mut out, &job.name);
    put_bool(
        &mut out,
        match &job.mode {
            JobMode::Local => false,
            JobMode::Distributed => true,
        },
    );
    match &job.graph.vertices {
        FileSource::Csv { path } => put_string(&mut out, path),
    }
    match &job.graph.edges {
        FileSource::Csv { path } => put_string(&mut out, path),
    }
    match &job.algorithm {
        AlgorithmSpec::Wcc { iterations } => {
            put_bool(&mut out, false);
            put_u64(&mut out, *iterations);
            put_u64(&mut out, 0);
        },
        AlgorithmSpec::PageRank { iterations, alpha_bits } => {
            put_bool(&mut out, true);
            put_u64(&mut out, *iterations);
            put_u64(&mut out, *alpha_bits);
        },
    }
    put_bool(&mut out, job.checkpoint.enabled);
    put_u64(&mut out, job.checkpoint.interval_iters);
    put_string(&mut out, &job.checkpoint.base_dir);
    proof {
        assert(out@ =~= spec_enc_job_spec(job@));
    }
    out
}

/// Decode a job spec from a whole buffer.
pub fn decode_job_spec(b: &Vec<u8>) -> (r: Option<JobSpec>)
    ensures
        match r {
            Some(job) => spec_dec_job_spec(b@) == Some(job@),
            None => spec_dec_job_spec(b@) is None,
        },
{
    let (job_id, p1) = match take_string(b, 0) {
        Some(x) => x,
        None => {
            return None;
        },
    };
    let (name, p2) = match take_string(b, p1) {
        Some(x) => x,
        None => {
            return None;
        },
    };
    let (distributed, p3) = match take_bool(b, p2) {
        Some(x) => x,
        None => {
            return None;
        },
    };
    let (vertices_path, p4) = match take_string(b, p3) {
        Some(x) => x,
        None => {
            return None;
        },
    };
    let (edges_path, p5) = match take_string(b, p4) {
        Some(x) => x,
        None => {
            return None;
        },
    };
    let (pagerank, p6) = match take_bool(b, p5) {
        Some(x) => x,
        None => {
            return None;
        },
    };
    let (iterations, p7) = match take_u64(b, p6) {
        Some(x) => x,
        None => {
            return None;
        },
    };
    let (alpha_bits, p8) = match take_u64(b, p7) {
        Some(x) => x,
        None => {
            return None;
        },
    };
    let (checkpoint_enabled, p9) = match take_bool(b, p8) {
        Some(x) => x,
        None => {
            return None;
        },
    };
    let (checkpoint_interval, p10) = match take_u64(b, p9) {
        Some(x) => x,
        None => {
            return None;
        },
    };
    let (checkpoint_base_dir, p11) = match take_string(b, p10) {
        Some(x) => x,
        None => {
            return None;
        },
    };
    if p11 != b.len() {
        return None;
    }
    Some(
        JobSpec {
            job_id,
            name,
            mode: if distributed {
                JobMode::Distributed
            } else {
                JobMode::Local
            },
            graph: GraphSpec {
                vertices: FileSource::Csv { path: vertices_path },
                edges: FileSource::Csv { path: edges_path },
            },
            algorithm: if pagerank {
                AlgorithmSpec::PageRank { iterations, alpha_bits }
            } else {
                AlgorithmSpec::Wcc { iterations }
            },
            checkpoint: CheckpointSpec {
                enabled: checkpoint_enabled,
                interval_iters: checkpoint_interval,
                base_dir: checkpoint_base_dir,
            },
        },
    )
}

/// The codec inverts itself on job specs whose Wcc variant carries zero
/// `alpha_bits` (as the encoder always writes).
#[verifier::rlimit(100)]
pub proof fn lemma_roundtrip_job_spec(v: JobSpecView)
    requires
        wf_job_spec(v),
        !v.pagerank ==> v.alpha_bits == 0,
    ensures
        spec_dec_job_spec(spec_enc_job_spec(v)) matches Some(v2) && v2 == v,
{
    let b = spec_enc_job_spec(v);
    lemma_auto_spec_u64_to_from_le_bytes();
    let e0 = spec_lp_string(v.job_id);
    let e1 = spec_lp_string(v.name);
    let e2 = spec_enc_bool(v.distributed);
    let e3 = spec_lp_string(v.vertices_path);
    let e4 = spec_lp_string(v.edges_path);
    let e5 = spec_enc_bool(v.pagerank);
    let e6 = spec_u64_to_le_bytes(v.iterations);
    let e7 = spec_u64_to_le_bytes(v.alpha_bits);
    let e8 = spec_enc_bool(v.checkpoint_enabled);
    let e9 = spec_u64_to_le_bytes(v.checkpoint_interval);
    let e10 = spec_lp_string(v.checkpoint_base_dir);
    assert(b == e0 + e1 + e2 + e3 + e4 + e5 + e6 + e7 + e8 + e9 + e10);
    let q0: int = 0;
    assert(b.subrange(q0, q0 + e0.len() as int) =~= e0) by {
        assert forall|j: int| 0 <= j < e0.len() implies b[q0 + j] == e0[j] by {}
    }
    lemma_take_string(b, q0, v.job_id);
    let q1: int = q0 + e0.len();
    assert(b.subrange(q1, q1 + e1.len() as int) =~= e1) by {
        assert forall|j: int| 0 <= j < e1.len() implies b[q1 + j] == e1[j] by {}
    }
    lemma_take_string(b, q1, v.name);
    let q2: int = q1 + e1.len();
    assert(b.subrange(q2, q2 + e2.len() as int) =~= e2) by {
        assert forall|j: int| 0 <= j < e2.len() implies b[q2 + j] == e2[j] by {}
    }
    lemma_take_bool(b, q2, v.distributed);
    let q3: int = q2 + e2.len();
    assert(b.subrange(q3, q3 + e3.len() as int) =~= e3) by {
        assert forall|j: int| 0 <= j < e3.len() implies b[q3 + j] == e3[j] by {}
    }
    lemma_take_string(b, q3, v.vertices_path);
    let q4: int = q3 + e3.len();
    assert(b.subrange(q4, q4 + e4.len() as int) =~= e4) by {
        assert forall|j: int| 0 <= j < e4.len() implies b[q4 + j] == e4[j] by {}
    }
    lemma_take_string(b, q4, v.edges_path);
    let q5: int = q4 + e4.len();
    assert(b.subrange(q5, q5 + e5.len() as int) =~= e5) by {
        assert forall|j: int| 0 <= j < e5.len() implies b[q5 + j] == e5[j] by {}
    }
    lemma_take_bool(b, q5, v.pagerank);
    let q6: int = q5 + e5.len();
    assert(b.subrange(q6, q6 + e6.len() as int) =~= e6) by {
        assert forall|j: int| 0 <= j < e6.len() implies b[q6 + j] == e6[j] by {}
    }
    lemma_take_u64(b, q6, v.iterations);
    let q7: int = q6 + e6.len();
    assert(b.subrange(q7, q7 + e7.len() as int) =~= e7) by {
        assert forall|j: int| 0 <= j < e7.len() implies b[q7 + j] == e7[j] by {}
    }
    lemma_take_u64(b, q7, v.alpha_bits);
    let q8: int = q7 + e7.len();
    assert(b.subrange(q8, q8 + e8.len() as int) =~= e8) by {
        assert forall|j: int| 0 <= j < e8.len() implies b[q8 + j] == e8[j] by {}
    }
    lemma_take_bool(b, q8, v.checkpoint_enabled);
    let q9: int = q8 + e8.len();
    assert(b.subrange(q9, q9 + e9.len() as int) =~= e9) by {
        assert forall|j: int| 0 <= j < e9.len() implies b[q9 + j] == e9[j] by {}
    }
    lemma_take_u64(b, q9, v.checkpoint_interval);
    let q10: int = q9 + e9.len();
    assert(b.subrange(q10, q10 + e10.len() as int) =~= e10) by {
        assert forall|j: int| 0 <= j < e10.len() implies b[q10 + j] == e10[j] by {}
    }
    lemma_take_string(b, q10, v.checkpoint_base_dir);
}

/// The plan the engine derives from a job: the worker layout, the algorithm
/// name and its iteration budget.
#[derive(Debug, Clone)]
pub struct ExecutionPlan {
    pub job_id: String,
    pub worker_count: usize,
    pub partitions: usize,
    pub algorithm_name: String,
    pub max_iterations: u64,
}

impl ExecutionPlan {
    /// Derive the plan of a job for a worker layout.
    pub fn from_job_spec(job: &JobSpec, worker_count: usize, partitions: usize) -> (r: Self)
        ensures
            r.job_id@ == job.job_id@,
            r.worker_count == worker_count,
            r.partitions == partitions,
            r.max_iterations == job.algorithm.spec_iterations(),
            job.algorithm is Wcc ==> r.algorithm_name@ == "wcc"@,
            job.algorithm is PageRank ==> r.algorithm_name@ == "pagerank"@,
    {
        let (algorithm_name, max_iterations) = match &job.algorithm {
            AlgorithmSpec::Wcc { iterations } => (
                <String as vstd::string::StringExecFns>::from_str("wcc"),
                *iterations,
            ),
            AlgorithmSpec::PageRank { iterations, .. } => (
                <String as vstd::string::StringExecFns>::from_str("pagerank"),
                *iterations,
            ),
        };
        ExecutionPlan {
            job_id: job.job_id.clone(),
            worker_count,
            partitions,
            algorithm_name,
            max_iterations,
        }
    }
}

} // verus!
