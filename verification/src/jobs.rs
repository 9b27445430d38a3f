//! The job submission service's state: the jobs map and the replies its
//! protocol loop sends.
//!
//! On `SubmitJob` the service parses the spec bytes, inserts a running
//! entry keyed by the job id, and replies `JobAccepted`; the job then runs
//! in the background and its entry moves to finished with the result
//! vertices, or to failed with the error message. Clients poll
//! `GetJobStatus` and fetch the vertices once finished. Everything here is
//! the decision logic; the caller owns the sockets and the background run.

use vstd::prelude::*;
use vstd::string::StringExecFns;
use crate::plan::{JobSpec, decode_job_spec, spec_dec_job_spec};
use crate::protocol::{DriverToClient, DriverToClientView};
use crate::config::{spec_cfg_find, lemma_cfg_find_at, lemma_cfg_find_none};

verus! {

/// The lifecycle of a submitted job.
#[derive(Debug, Clone)]
pub enum JobState {
    Running,
    Finished,
    Failed,
}

/// One submitted job: its state, its result once finished, its error once
/// failed.
pub struct JobEntry {
    pub state: JobState,
    pub result_vertices: Option<Vec<(Vec<u8>, Vec<u8>)>>,
    pub error: Option<String>,
}

/// The jobs map, keyed by job id in submission order.
pub struct JobTable {
    pub entries: Vec<(String, JobEntry)>,
}

/// The keys of the table, for the find.
pub open spec fn job_keys(entries: Seq<(String, JobEntry)>) -> Seq<(Seq<char>, Seq<char>)> {
    entries.map_values(|e: (String, JobEntry)| (e.0@, Seq::<char>::empty()))
}

/// The wire form of a job state.
pub open spec fn state_chars(s: JobState) -> Seq<char> {
    match s {
        JobState::Running => "running"@,
        JobState::Finished => "finished"@,
        JobState::Failed => "failed"@,
    }
}

impl JobTable {
    /// An empty jobs map.
    pub fn new() -> (r: Self)
        ensures
            r.entries@.len() == 0,
    {
        JobTable { entries: Vec::new() }
    }

    /// The position of a job id, if present: exactly the first entry under
    /// that id.
    fn find(&self, job_id: &String) -> (r: Option<usize>)
        ensures
            match r {
                Some(i) => i < self.entries@.len() && self.entries@[i as int].0@ == job_id@
                    && spec_cfg_find(job_keys(self.entries@), job_id@) == i as int,
                None => spec_cfg_find(job_keys(self.entries@), job_id@) == -1,
            },
    {
        let n = self.entries.len();
        let mut i: usize = 0;
        while i < n
            invariant
                i <= n,
                n == self.entries@.len(),
                forall|j: int| 0 <= j < i ==> #[trigger] job_keys(self.entries@)[j].0 != job_id@,
            decreases n - i,
        {
            if self.entries[i].0 == *job_id {
                proof {
                    lemma_cfg_find_at(job_keys(self.entries@), job_id@, i as int);
                }
                return Some(i);
            }
            i += 1;
        }
        proof {
            lemma_cfg_find_none(job_keys(self.entries@), job_id@);
        }
        None
    }

    /// Accept a submission: parse the spec bytes; on success insert a
    /// running entry for the job id and reply `JobAccepted`, otherwise
    /// reply an error. Returns the parsed job to run, if accepted.
    pub fn submit(&mut self, job_spec_bytes: &Vec<u8>) -> (r: (DriverToClient, Option<JobSpec>))
        ensures
            match spec_dec_job_spec(job_spec_bytes@) {
                Some(jv) => {
                    &&& r.1 matches Some(job) && job@ == jv
                    &&& r.0@ matches DriverToClientView::JobAccepted { job_id } && job_id
                        == jv.job_id
                    &&& final(self).entries@.len() == old(self).entries@.len() + 1
                    &&& forall|i: int|
                        0 <= i < old(self).entries@.len() ==> final(self).entries@[i] == old(
                            self,
                        ).entries@[i]
                    &&& final(self).entries@.last().0@ == jv.job_id
                    &&& final(self).entries@.last().1.state is Running
                    &&& final(self).entries@.last().1.result_vertices is None
                    &&& final(self).entries@.last().1.error is None
                },
                None => {
                    &&& r.1 is None
                    &&& r.0@ is Error
                    &&& final(self).entries@ == old(self).entries@
                },
            },
    {
        match decode_job_spec(job_spec_bytes) {
            Some(job) => {
                let job_id = job.job_id.clone();
                let reply_id = job.job_id.clone();
                self.entries.push(
                    (
                        job_id,
                        JobEntry {
                            state: JobState::Running,
                            result_vertices: None,
                            error: None,
                        },
                    ),
                );
                (DriverToClient::JobAccepted { job_id: reply_id }, Some(job))
            },
            None => {
                (
                    DriverToClient::Error {
                        message: <String as StringExecFns>::from_str("invalid job spec"),
                    },
                    None,
                )
            },
        }
    }

    /// Mark a job finished with its result vertices; unknown ids are
    /// ignored, as the job may have been dropped. The job's entry becomes
    /// `Finished` holding exactly these vertices; every other entry stays.
    pub fn mark_finished(&mut self, job_id: &String, vertices: Vec<(Vec<u8>, Vec<u8>)>)
        ensures
            final(self).entries@.len() == old(self).entries@.len(),
            ({
                let i = spec_cfg_find(job_keys(old(self).entries@), job_id@);
                if i == -1 {
                    final(self).entries@ == old(self).entries@
                } else {
                    &&& forall|j: int|
                        0 <= j < old(self).entries@.len() && j != i ==> final(self).entries@[j]
                            == old(self).entries@[j]
                    &&& final(self).entries@[i].0 == old(self).entries@[i].0
                    &&& final(self).entries@[i].1.state is Finished
                    &&& final(self).entries@[i].1.result_vertices matches Some(v)
                        && crate::wire::view_pair_list(v@) == crate::wire::view_pair_list(
                        vertices@,
                    )
                    &&& final(self).entries@[i].1.error == old(self).entries@[i].1.error
                }
            }),
    {
        match self.find(job_id) {
            Some(i) => {
                let entry = vstd::std_specs::vec::vec_index_mut(&mut self.entries, i);
                entry.1.state = JobState::Finished;
                entry.1.result_vertices = Some(vertices);
            },
            None => {},
        }
    }

    /// Mark a job failed with the error message; unknown ids are ignored.
    /// The job's entry becomes `Failed` carrying the message; every other
    /// entry stays.
    pub fn mark_failed(&mut self, job_id: &String, message: String)
        ensures
            final(self).entries@.len() == old(self).entries@.len(),
            ({
                let i = spec_cfg_find(job_keys(old(self).entries@), job_id@);
                if i == -1 {
                    final(self).entries@ == old(self).entries@
                } else {
                    &&& forall|j: int|
                        0 <= j < old(self).entries@.len() && j != i ==> final(self).entries@[j]
                            == old(self).entries@[j]
                    &&& final(self).entries@[i].0 == old(self).entries@[i].0
                    &&& final(self).entries@[i].1.state is Failed
                    &&& final(self).entries@[i].1.result_vertices == old(self).entries@[
                        i
                    ].1.result_vertices
                    &&& final(self).entries@[i].1.error matches Some(m) && m@ == message@
                }
            }),
    {
        match self.find(job_id) {
            Some(i) => {
                let entry = vstd::std_specs::vec::vec_index_mut(&mut self.entries, i);
                entry.1.state = JobState::Failed;
                entry.1.error = Some(message);
            },
            None => {},
        }
    }

    /// The reply to a `GetJobStatus` poll: the found entry's state,
    /// its stored error once failed, and `not_found` exactly when the id is
    /// absent.
    pub fn status_reply(&self, job_id: &String) -> (r: DriverToClient)
        ensures
            ({
                let i = spec_cfg_find(job_keys(self.entries@), job_id@);
                if i == -1 {
                    r@ == (DriverToClientView::JobStatus {
                        job_id: job_id@,
                        state: "not_found"@,
                    })
                } else {
                    match self.entries@[i].1.error {
                        Some(m) => r@ == (DriverToClientView::Error { message: m@ }),
                        None => r@ == (DriverToClientView::JobStatus {
                            job_id: job_id@,
                            state: state_chars(self.entries@[i].1.state),
                        }),
                    }
                }
            }),
    {
        match self.find(job_id) {
            None => DriverToClient::JobStatus {
                job_id: job_id.clone(),
                state: <String as StringExecFns>::from_str("not_found"),
            },
            Some(i) => {
                let entry = &self.entries[i].1;
                match &entry.error {
                    Some(message) => DriverToClient::Error { message: message.clone() },
                    None => {
                        let state = match &entry.state {
                            JobState::Running => <String as StringExecFns>::from_str("running"),
                            JobState::Finished => <String as StringExecFns>::from_str("finished"),
                            JobState::Failed => <String as StringExecFns>::from_str("failed"),
                        };
                        DriverToClient::JobStatus { job_id: job_id.clone(), state }
                    },
                }
            },
        }
    }

    /// The reply to a `FetchVertices` request: exactly the stored result
    /// list when the job holds one, an error otherwise.
    pub fn vertices_reply(&self, job_id: &String) -> (r: DriverToClient)
        ensures
            ({
                let i = spec_cfg_find(job_keys(self.entries@), job_id@);
                if i != -1 && self.entries@[i].1.result_vertices is Some {
                    r@ == (DriverToClientView::Vertices {
                        job_id: job_id@,
                        vertices: crate::wire::view_pair_list(
                            self.entries@[i].1.result_vertices->Some_0@,
                        ),
                    })
                } else {
                    r@ == (DriverToClientView::Error {
                        message: "job not finished or not found"@,
                    })
                }
            }),
    {
        match self.find(job_id) {
            None => DriverToClient::Error {
                message: <String as StringExecFns>::from_str("job not finished or not found"),
            },
            Some(i) => {
                match &self.entries[i].1.result_vertices {
                    Some(vertices) => DriverToClient::Vertices {
                        job_id: job_id.clone(),
                        vertices: crate::state::clone_pairs(vertices),
                    },
                    None => DriverToClient::Error {
                        message: <String as StringExecFns>::from_str(
                            "job not finished or not found",
                        ),
                    },
                }
            },
        }
    }

    /// Every job with its state, in submission order.
    pub fn list_jobs(&self) -> (r: Vec<(String, String)>)
        ensures
            r@.len() == self.entries@.len(),
            forall|i: int|
                0 <= i < r@.len() ==> (#[trigger] r@[i]).0@ == self.entries@[i].0@ && r@[i].1@
                    == state_chars(self.entries@[i].1.state),
    {
        let n = self.entries.len();
        let mut out: Vec<(String, String)> = Vec::new();
        let mut i: usize = 0;
        while i < n
            invariant
                i <= n,
                n == self.entries@.len(),
                out@.len() == i,
                forall|j: int|
                    0 <= j < i ==> (#[trigger] out@[j]).0@ == self.entries@[j].0@ && out@[j].1@
                        == state_chars(self.entries@[j].1.state),
            decreases n - i,
        {
            let state = match &self.entries[i].1.state {
                JobState::Running => <String as StringExecFns>::from_str("running"),
                JobState::Finished => <String as StringExecFns>::from_str("finished"),
                JobState::Failed => <String as StringExecFns>::from_str("failed"),
            };
            out.push((self.entries[i].0.clone(), state));
            i += 1;
        }
        out
    }
}

} // verus!
