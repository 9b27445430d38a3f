//! The worker: one partition's protocol state machine.
//!
//! A worker owns a graph state and serves its single driver connection in
//! strict request/response order. The machine here is the whole worker but
//! for the socket: the caller reads one frame, hands it in, sends the reply
//! frames back, and performs the returned disk effect, if any. A superstep
//! accumulates inbox slices keyed by iteration until the `last` frame
//! arrives, then runs the algorithm over every local vertex, writes the new
//! values back in one batch, and streams the outbox in slices of at most
//! `BATCH_ENTRIES`, only the final slice marked last.

use vstd::prelude::*;
use crate::algorithm::DistributedAlgorithm;
use crate::error::{GeaFlowError, GeaFlowResult};
use crate::protocol::{DriverToWorker, WorkerToDriver, WorkerToDriverView};
use crate::shuffle::{Inbox, spec_merge_slice, spec_push_all, spec_push_msg};
use crate::state::{GraphState, spec_vput_all, spec_add_edges, spec_restore, spec_snapshot};

verus! {

/// The batch-entry limit in both directions: no frame carries more than
/// this many inbox entries or outbox messages.
pub const BATCH_ENTRIES: usize = 256;

/// Creates the algorithm instance a `SetAlgorithm` frame names. The engine
/// promises nothing of what a factory returns; the worker machine only
/// installs it.
pub trait AlgorithmFactory {
    type Algo: DistributedAlgorithm;

    fn create(&self, name: &String, iterations: u64, params: &Vec<u8>) -> GeaFlowResult<
        Self::Algo,
    >;
}

/// The factory for the bundled algorithms: it knows `wcc` alone.
pub struct BuiltinFactory;

impl AlgorithmFactory for BuiltinFactory {
    type Algo = crate::algorithm::WccAlgorithm;

    fn create(&self, name: &String, iterations: u64, params: &Vec<u8>) -> (r: GeaFlowResult<
        Self::Algo,
    >)
        ensures
            r is Ok <==> name@ == "wcc"@,
            r matches Ok(a) ==> a.iterations == iterations,
            r matches Err(e) ==> e.is_invalid_argument(),
    {
        let wcc = <String as vstd::string::StringExecFns>::from_str("wcc");
        if *name == wcc {
            Ok(crate::algorithm::WccAlgorithm::new(iterations))
        } else {
            Err(
                GeaFlowError::InvalidArgument(
                    <String as vstd::string::StringExecFns>::from_str("unknown algorithm"),
                ),
            )
        }
    }
}

/// A disk effect the caller must perform on the worker's behalf.
#[derive(Debug)]
pub enum WorkerEffect {
    /// Write these snapshot bytes under the checkpoint directory, then
    /// report the outcome through `snapshot_written`.
    WriteSnapshot { checkpoint_dir: String, bytes: Vec<u8> },
    /// Read the snapshot bytes under the checkpoint directory, then hand
    /// them to `install_snapshot`.
    ReadSnapshot { checkpoint_dir: String },
    /// Write the stored vertices as text at this path, decoding values as
    /// the current algorithm's value kind, then report the outcome through
    /// `csv_written`.
    DumpVertices { output_path: String, vertices: Vec<(Vec<u8>, Vec<u8>)> },
}

/// The worker machine: the graph state, the installed algorithm, and the
/// inbox accumulated for the superstep in flight.
pub struct WorkerMachine<F: AlgorithmFactory> {
    pub store: GraphState,
    pub factory: F,
    pub algorithm: Option<F::Algo>,
    pub pending_iteration: Option<u64>,
    pub pending_inbox: Inbox,
    pub terminated: bool,
}

/// Result batches are well-formed for an iteration: at least one frame, all
/// of them `SuperstepResultBatch` frames for that iteration, each carrying
/// at most `BATCH_ENTRIES` messages, and exactly the final frame marked
/// last.
pub open spec fn wf_result_batches(replies: Seq<WorkerToDriver>, iteration: u64) -> bool {
    &&& replies.len() >= 1
    &&& forall|i: int|
        0 <= i < replies.len() ==> {
            &&& #[trigger] replies[i]@ matches WorkerToDriverView::SuperstepResultBatch {
                iteration: it,
                outbox,
                last,
            }
            &&& (replies[i]@ matches WorkerToDriverView::SuperstepResultBatch {
                iteration: it,
                outbox,
                last,
            } ==> it == iteration && outbox.len() <= BATCH_ENTRIES && (last <==> i == replies.len()
                - 1))
        }
}

/// One vertex computation of a superstep: the arguments the algorithm was
/// given, and what it returned.
pub struct VertexComputation {
    pub vertex_id: Seq<u8>,
    pub vertex_value: Seq<u8>,
    pub out_edges: Seq<(Seq<u8>, Seq<u8>)>,
    pub messages: Seq<Seq<u8>>,
    pub new_value: Option<Seq<u8>>,
    pub outgoing: Seq<(Seq<u8>, Seq<u8>)>,
}

/// The keys of an accumulated inbox.
pub open spec fn inbox_keys(pending: crate::shuffle::InboxView) -> Seq<Seq<u8>> {
    pending.map_values(|e: (Seq<u8>, Seq<Seq<u8>>)| e.0)
}

/// The messages an accumulated inbox holds for one vertex: its entry's
/// payloads, or none.
pub open spec fn spec_vertex_messages(pending: crate::shuffle::InboxView, id: Seq<u8>) -> Seq<
    Seq<u8>,
> {
    let i = crate::state::spec_find(inbox_keys(pending), id);
    if i == -1 {
        Seq::empty()
    } else {
        pending[i].1
    }
}

/// The value updates of a superstep: each vertex that set a new value, with
/// it, in visit order.
pub open spec fn spec_superstep_updates(outs: Seq<VertexComputation>) -> Seq<(Seq<u8>, Seq<u8>)>
    decreases outs.len(),
{
    if outs.len() == 0 {
        Seq::empty()
    } else {
        spec_superstep_updates(outs.drop_last()) + (match outs.last().new_value {
            Some(nv) => seq![(outs.last().vertex_id, nv)],
            None => Seq::empty(),
        })
    }
}

/// The combined outbox of a superstep: every computation's outgoing
/// messages, in visit order.
pub open spec fn spec_superstep_outbox(outs: Seq<VertexComputation>) -> Seq<(Seq<u8>, Seq<u8>)>
    decreases outs.len(),
{
    if outs.len() == 0 {
        Seq::empty()
    } else {
        spec_superstep_outbox(outs.drop_last()) + outs.last().outgoing
    }
}

/// The record of one whole superstep: the algorithm was called once per
/// stored vertex, in store order, with that vertex's id and stored value,
/// its out-edges from the store, and its accumulated messages; the values it
/// set were applied as one batch over the old table; and the replies carry
/// exactly the combined outbox, sliced in order with a single terminal
/// frame.
pub open spec fn superstep_witness(
    vs: crate::state::VertexTable,
    es: crate::state::AdjTable,
    pending: crate::shuffle::InboxView,
    iteration: u64,
    post_vs: crate::state::VertexTable,
    replies: Seq<WorkerToDriver>,
    outs: Seq<VertexComputation>,
) -> bool {
    &&& outs.len() == vs.len()
    &&& forall|i: int|
        0 <= i < outs.len() ==> {
            &&& (#[trigger] outs[i]).vertex_id == vs[i].0
            &&& outs[i].vertex_value == vs[i].1
            &&& outs[i].out_edges == crate::state::spec_out_edges(es, vs[i].0)
            &&& outs[i].messages == spec_vertex_messages(pending, vs[i].0)
        }
    &&& post_vs == spec_vput_all(vs, spec_superstep_updates(outs))
    &&& ({
        let ob = spec_superstep_outbox(outs);
        &&& replies.len() == (if ob.len() == 0 {
            1int
        } else {
            (ob.len() + BATCH_ENTRIES - 1) as int / BATCH_ENTRIES as int
        })
        &&& forall|i: int|
            0 <= i < replies.len() ==> ((#[trigger] replies[i]@) matches
                WorkerToDriverView::SuperstepResultBatch { iteration: it, outbox: sl, last }
                && it == iteration && sl == spec_outbox_slice(ob, i) && (last <==> i
                == replies.len() - 1))
    })
}

/// A superstep ran: some sequence of per-vertex computations explains the
/// new vertex table and the replies, each fed exactly the right arguments.
pub open spec fn spec_superstep_post(
    vs: crate::state::VertexTable,
    es: crate::state::AdjTable,
    pending: crate::shuffle::InboxView,
    iteration: u64,
    post_vs: crate::state::VertexTable,
    replies: Seq<WorkerToDriver>,
) -> bool {
    exists|outs: Seq<VertexComputation>|
        superstep_witness(vs, es, pending, iteration, post_vs, replies, outs)
}

impl<F: AlgorithmFactory> WorkerMachine<F> {
    /// A fresh worker over an empty store.
    pub fn new(factory: F) -> (r: Self)
        ensures
            r.store.vertices_view() == Seq::<(Seq<u8>, Seq<u8>)>::empty(),
            r.store.edges_view() == Seq::<(Seq<u8>, Seq<(Seq<u8>, Seq<u8>)>)>::empty(),
            r.algorithm is None,
            r.pending_iteration is None,
            !r.terminated,
    {
        WorkerMachine {
            store: GraphState::new(),
            factory,
            algorithm: None,
            pending_iteration: None,
            pending_inbox: Inbox::new(),
            terminated: false,
        }
    }

    /// Serve one frame from the driver: the replies to send back, and a disk
    /// effect to perform, if any. An error terminates the worker, as does a
    /// `Shutdown` frame; a `Shutdown` loses nothing: the store is exactly
    /// what it was.
    pub fn handle_frame(&mut self, msg: DriverToWorker) -> (r: GeaFlowResult<
        (Vec<WorkerToDriver>, Option<WorkerEffect>),
    >)
        requires
            !old(self).terminated,
        ensures
            r is Err ==> final(self).terminated,
            msg@ is Shutdown ==> {
                &&& final(self).terminated
                &&& final(self).store == old(self).store
                &&& r matches Ok((replies, eff)) && replies@.len() == 0 && eff is None
            },
            msg@ matches crate::protocol::DriverToWorkerView::LoadGraph { vertices, edges } ==> {
                &&& final(self).store.vertices_view() == spec_vput_all(
                    old(self).store.vertices_view(),
                    vertices,
                )
                &&& final(self).store.edges_view() == spec_add_edges(
                    old(self).store.edges_view(),
                    edges,
                )
                &&& r matches Ok((replies, eff)) && replies@.len() == 0 && eff is None
            },
            msg@ matches crate::protocol::DriverToWorkerView::LoadGraphBatch {
                vertices,
                edges,
                last,
            } ==> {
                &&& final(self).store.vertices_view() == spec_vput_all(
                    old(self).store.vertices_view(),
                    vertices,
                )
                &&& final(self).store.edges_view() == spec_add_edges(
                    old(self).store.edges_view(),
                    edges,
                )
                &&& r matches Ok((replies, eff)) && replies@.len() == 1 && replies@[0]@
                    == (WorkerToDriverView::GraphLoaded { last }) && eff is None
            },
            msg@ matches crate::protocol::DriverToWorkerView::CreateCheckpoint {
                checkpoint_dir,
            } ==> {
                &&& final(self).store == old(self).store
                &&& r matches Ok((replies, eff)) && replies@.len() == 0 && (
                eff matches Some(WorkerEffect::WriteSnapshot { checkpoint_dir: d, bytes })
                    && d@ == checkpoint_dir && bytes@ == spec_snapshot(
                    old(self).store.vertices_view(),
                    old(self).store.edges_view(),
                ))
            },
            msg@ matches crate::protocol::DriverToWorkerView::LoadCheckpoint {
                checkpoint_dir,
            } ==> {
                &&& final(self).store == old(self).store
                &&& r matches Ok((replies, eff)) && replies@.len() == 0 && (
                eff matches Some(WorkerEffect::ReadSnapshot { checkpoint_dir: d }) && d@
                    == checkpoint_dir)
            },
            msg@ is FetchVertices ==> {
                &&& final(self).store == old(self).store
                &&& r matches Ok((replies, eff)) && replies@.len() == 1 && eff is None
                    && (replies@[0]@ matches WorkerToDriverView::Vertices { vertices }
                    && vertices == old(self).store.vertices_view())
            },
            msg@ matches crate::protocol::DriverToWorkerView::SuperstepBatch {
                iteration,
                inbox,
                last,
            } ==> (if !last {
                final(self).store == old(self).store && (r matches Ok((replies, eff))
                    && replies@.len() == 0 && eff is None) && final(self).pending_iteration
                    == Some(iteration) && final(self).pending_inbox@ == spec_merge_slice(
                    if old(self).pending_iteration == Some(iteration) {
                        old(self).pending_inbox@
                    } else {
                        Seq::empty()
                    },
                    inbox,
                )
            } else {
                &&& (old(self).algorithm is None ==> (r matches Err(e)
                    && e.is_invalid_argument()))
                &&& (r matches Ok((replies, eff)) ==> {
                    &&& wf_result_batches(replies@, iteration)
                    &&& eff is None
                    &&& final(self).store.edges_view() == old(self).store.edges_view()
                    &&& (old(self).store.wf() ==> final(self).store.wf())
                    &&& spec_superstep_post(
                        old(self).store.vertices_view(),
                        old(self).store.edges_view(),
                        spec_merge_slice(
                            if old(self).pending_iteration == Some(iteration) {
                                old(self).pending_inbox@
                            } else {
                                Seq::empty()
                            },
                            inbox,
                        ),
                        iteration,
                        final(self).store.vertices_view(),
                        replies@,
                    )
                })
            }),
            msg@ matches crate::protocol::DriverToWorkerView::Superstep { iteration, inbox } ==> {
                &&& (old(self).algorithm is None ==> (r matches Err(e)
                    && e.is_invalid_argument()))
                &&& (r matches Ok((replies, eff)) ==> {
                    &&& wf_result_batches(replies@, iteration)
                    &&& eff is None
                    &&& final(self).store.edges_view() == old(self).store.edges_view()
                    &&& (old(self).store.wf() ==> final(self).store.wf())
                    &&& spec_superstep_post(
                        old(self).store.vertices_view(),
                        old(self).store.edges_view(),
                        spec_merge_slice(Seq::empty(), inbox),
                        iteration,
                        final(self).store.vertices_view(),
                        replies@,
                    )
                })
            },
            msg@ matches crate::protocol::DriverToWorkerView::SetAlgorithm {
                name,
                iterations,
                params,
            } ==> {
                &&& final(self).store == old(self).store
                &&& (r matches Ok((replies, eff)) ==> final(self).algorithm is Some
                    && replies@.len() == 0 && eff is None)
            },
            msg@ matches crate::protocol::DriverToWorkerView::DumpVerticesCsv { output_path } ==> {
                &&& final(self).store == old(self).store
                &&& r matches Ok((replies, eff)) && replies@.len() == 0 && (
                eff matches Some(WorkerEffect::DumpVertices { output_path: p, vertices })
                    && p@ == output_path && crate::wire::view_pair_list(vertices@) == old(
                    self,
                ).store.vertices_view())
            },
    {
        match msg {
            DriverToWorker::LoadGraph { vertices, edges } => {
                self.store.put_vertex_batch(vertices);
                self.store.put_edge_batch(edges);
                Ok((Vec::new(), None))
            },
            DriverToWorker::LoadGraphBatch { vertices, edges, last } => {
                self.store.put_vertex_batch(vertices);
                self.store.put_edge_batch(edges);
                let mut replies: Vec<WorkerToDriver> = Vec::new();
                replies.push(WorkerToDriver::GraphLoaded { last });
                Ok((replies, None))
            },
            DriverToWorker::SetAlgorithm { name, iterations, params } => {
                match self.factory.create(&name, iterations, &params) {
                    Ok(algo) => {
                        self.algorithm = Some(algo);
                        Ok((Vec::new(), None))
                    },
                    Err(e) => {
                        self.terminated = true;
                        Err(e)
                    },
                }
            },
            DriverToWorker::Superstep { iteration, inbox } => {
                self.pending_iteration = None;
                self.pending_inbox = Inbox::new();
                self.accumulate(inbox);
                self.run_superstep(iteration)
            },
            DriverToWorker::SuperstepBatch { iteration, inbox, last } => {
                let same = match self.pending_iteration {
                    Some(it) => it == iteration,
                    None => false,
                };
                if !same {
                    self.pending_iteration = Some(iteration);
                    self.pending_inbox = Inbox::new();
                }
                self.accumulate(inbox);
                if last {
                    self.pending_iteration = None;
                    self.run_superstep(iteration)
                } else {
                    Ok((Vec::new(), None))
                }
            },
            DriverToWorker::CreateCheckpoint { checkpoint_dir } => {
                let bytes = self.store.snapshot_bytes();
                Ok((Vec::new(), Some(WorkerEffect::WriteSnapshot { checkpoint_dir, bytes })))
            },
            DriverToWorker::LoadCheckpoint { checkpoint_dir } => {
                Ok((Vec::new(), Some(WorkerEffect::ReadSnapshot { checkpoint_dir })))
            },
            DriverToWorker::FetchVertices => {
                let vertices = crate::state::clone_pairs(self.store.list_vertices());
                let mut replies: Vec<WorkerToDriver> = Vec::new();
                replies.push(WorkerToDriver::Vertices { vertices });
                Ok((replies, None))
            },
            DriverToWorker::DumpVerticesCsv { output_path } => {
                let vertices = crate::state::clone_pairs(self.store.list_vertices());
                Ok((Vec::new(), Some(WorkerEffect::DumpVertices { output_path, vertices })))
            },
            DriverToWorker::Shutdown => {
                self.terminated = true;
                Ok((Vec::new(), None))
            },
        }
    }

    /// Merge one inbox slice into the pending accumulator: each payload is
    /// appended to its target's entry, in slice order. Nothing is dropped:
    /// the accumulator afterwards is exactly the fold of the deliveries.
    fn accumulate(&mut self, inbox: Vec<(Vec<u8>, Vec<Vec<u8>>)>)
        ensures
            final(self).store == old(self).store,
            final(self).algorithm == old(self).algorithm,
            final(self).terminated == old(self).terminated,
            final(self).pending_iteration == old(self).pending_iteration,
            final(self).pending_inbox@ == spec_merge_slice(
                old(self).pending_inbox@,
                crate::wire::view_entry_list(inbox@),
            ),
    {
        let ghost slice = crate::wire::view_entry_list(inbox@);
        let mut rest = inbox;
        let n = rest.len();
        let mut k: usize = 0;
        proof {
            assert(slice.skip(0) =~= slice);
            assert(crate::wire::view_entry_list(rest@) =~= slice);
        }
        while k < n
            invariant
                k <= n,
                n == slice.len(),
                crate::wire::view_entry_list(rest@) == slice.skip(k as int),
                self.store == old(self).store,
                self.algorithm == old(self).algorithm,
                self.terminated == old(self).terminated,
                self.pending_iteration == old(self).pending_iteration,
                spec_merge_slice(old(self).pending_inbox@, slice) == spec_merge_slice(
                    self.pending_inbox@,
                    slice.skip(k as int),
                ),
            decreases n - k,
        {
            proof {
                assert(rest@.len() == slice.skip(k as int).len());
            }
            let ghost prev = rest@;
            let (target, mut msgs) = rest.remove(0);
            let ghost tv = target@;
            let ghost all_msgs = crate::wire::view_byte_list(msgs@);
            proof {
                assert(crate::wire::view_entry_list(prev)[0] == (tv, all_msgs));
                assert(slice.skip(k as int)[0] == (tv, all_msgs));
                assert forall|q: int|
                    0 <= q < rest@.len() implies crate::wire::view_entry_list(rest@)[q]
                    == slice.skip(k + 1)[q] by {
                    assert(rest@[q] == prev[q + 1]);
                    assert(crate::wire::view_entry_list(prev)[q + 1] == (prev[q + 1].0@,
                        crate::wire::view_byte_list(prev[q + 1].1@)));
                    assert(slice.skip(k as int)[q + 1] == slice[k + 1 + q]);
                }
                assert(crate::wire::view_entry_list(rest@) =~= slice.skip(k + 1));
                assert(all_msgs.skip(0) =~= all_msgs);
            }
            let ghost inner_base = self.pending_inbox@;
            proof {
                assert(all_msgs.skip(0) =~= all_msgs);
            }
            let mut j: usize = 0;
            let m = msgs.len();
            while j < m
                invariant
                    j <= m,
                    m == all_msgs.len(),
                    crate::wire::view_byte_list(msgs@) == all_msgs.skip(j as int),
                    tv == target@,
                    self.store == old(self).store,
                    self.algorithm == old(self).algorithm,
                    self.terminated == old(self).terminated,
                    self.pending_iteration == old(self).pending_iteration,
                    spec_push_all(inner_base, tv, all_msgs) == spec_push_all(
                        self.pending_inbox@,
                        tv,
                        all_msgs.skip(j as int),
                    ),
                decreases m - j,
            {
                proof {
                    assert(msgs@.len() == all_msgs.skip(j as int).len());
                }
                let ghost prev_msgs = msgs@;
                let payload = msgs.remove(0);
                let t = crate::state::clone_bytes(&target);
                proof {
                    assert(crate::wire::view_byte_list(prev_msgs)[0] == payload@);
                    assert(all_msgs.skip(j as int)[0] == payload@);
                    assert forall|q: int|
                        0 <= q < msgs@.len() implies crate::wire::view_byte_list(msgs@)[q]
                        == all_msgs.skip(j + 1)[q] by {
                        assert(msgs@[q] == prev_msgs[q + 1]);
                        assert(crate::wire::view_byte_list(prev_msgs)[q + 1] == prev_msgs[q
                            + 1]@);
                        assert(all_msgs.skip(j as int)[q + 1] == all_msgs[j + 1 + q]);
                    }
                    assert(crate::wire::view_byte_list(msgs@) =~= all_msgs.skip(j + 1));
                }
                proof {
                    assert(all_msgs.skip(j as int).drop_first() =~= all_msgs.skip(j + 1));
                }
                self.pending_inbox.push_msg(t, payload);
                j += 1;
            }
            proof {
                assert(all_msgs.skip(m as int) =~= Seq::<Seq<u8>>::empty());
                assert(self.pending_inbox@ == spec_push_all(inner_base, tv, all_msgs));
                assert(slice.skip(k as int).drop_first() =~= slice.skip(k + 1));
                assert(spec_merge_slice(inner_base, slice.skip(k as int)) == spec_merge_slice(
                    spec_push_all(inner_base, tv, all_msgs),
                    slice.skip(k + 1),
                ));
            }
            k += 1;
        }
        proof {
            assert(slice.skip(n as int) =~= Seq::<(Seq<u8>, Seq<Seq<u8>>)>::empty());
        }
    }

    /// Run one superstep over every local vertex: call the algorithm with
    /// the vertex's stored value, its out-edges and its accumulated
    /// messages, apply all value updates in one batch, and slice the
    /// combined outbox into result frames.
    fn run_superstep(&mut self, iteration: u64) -> (r: GeaFlowResult<
        (Vec<WorkerToDriver>, Option<WorkerEffect>),
    >)
        ensures
            r is Err ==> final(self).terminated,
            old(self).algorithm is None ==> (r matches Err(e) && e.is_invalid_argument()),
            r matches Ok((replies, eff)) ==> {
                &&& wf_result_batches(replies@, iteration)
                &&& eff is None
                &&& final(self).store.edges_view() == old(self).store.edges_view()
                &&& (old(self).store.wf() ==> final(self).store.wf())
                &&& spec_superstep_post(
                    old(self).store.vertices_view(),
                    old(self).store.edges_view(),
                    old(self).pending_inbox@,
                    iteration,
                    final(self).store.vertices_view(),
                    replies@,
                )
            },
    {
        let mut algo = match self.algorithm.take() {
            Some(a) => a,
            None => {
                self.terminated = true;
                return Err(
                    GeaFlowError::InvalidArgument(
                        <String as vstd::string::StringExecFns>::from_str("algorithm not set"),
                    ),
                );
            },
        };
        let ghost pre_pending = self.pending_inbox@;
        let entries = self.pending_inbox.take_entries();
        let mut updates: Vec<(Vec<u8>, Vec<u8>)> = Vec::new();
        let mut outbox: Vec<(Vec<u8>, Vec<u8>)> = Vec::new();
        let ghost mut outs: Seq<VertexComputation> = Seq::empty();
        let vertex_count = self.store.list_vertices().len();
        let mut i: usize = 0;
        let empty_msgs: Vec<Vec<u8>> = Vec::new();
        proof {
            assert(crate::wire::view_pair_list(updates@) =~= spec_superstep_updates(outs));
            assert(crate::wire::view_pair_list(outbox@) =~= spec_superstep_outbox(outs));
        }
        while i < vertex_count
            invariant
                i <= vertex_count,
                vertex_count == self.store.vertices_view().len(),
                self.store == old(self).store,
                old(self).algorithm is Some,
                crate::wire::view_entry_list(entries@) == pre_pending,
                empty_msgs@.len() == 0,
                outs.len() == i,
                forall|j: int|
                    0 <= j < i ==> {
                        &&& (#[trigger] outs[j]).vertex_id == old(self).store.vertices_view()[
                            j
                        ].0
                        &&& outs[j].vertex_value == old(self).store.vertices_view()[j].1
                        &&& outs[j].out_edges == crate::state::spec_out_edges(
                            old(self).store.edges_view(),
                            old(self).store.vertices_view()[j].0,
                        )
                        &&& outs[j].messages == spec_vertex_messages(
                            pre_pending,
                            old(self).store.vertices_view()[j].0,
                        )
                    },
                crate::wire::view_pair_list(updates@) == spec_superstep_updates(outs),
                crate::wire::view_pair_list(outbox@) == spec_superstep_outbox(outs),
            decreases vertex_count - i,
        {
            let id = crate::state::clone_bytes(&self.store.list_vertices()[i].0);
            let ghost idv = id@;
            let out_edges = self.store.get_out_edges(&id);
            let ghost oev = crate::wire::view_pair_list(out_edges@);
            let msg_idx = crate::state::find_key(&entries, &id);
            proof {
                assert(crate::state::exec_keys(entries@) =~= inbox_keys(pre_pending));
            }
            let ghost msgs_v: Seq<Seq<u8>> = match msg_idx {
                Some(j) => crate::wire::view_byte_list(entries@[j as int].1@),
                None => Seq::empty(),
            };
            proof {
                assert(msgs_v == spec_vertex_messages(pre_pending, idv));
            }
            let computed = {
                let msgs: &Vec<Vec<u8>> = match msg_idx {
                    Some(j) => &entries[j].1,
                    None => &empty_msgs,
                };
                let value = &self.store.list_vertices()[i].1;
                algo.compute_vertex(&id, Some(value), &out_edges, msgs, iteration)
            };
            match computed {
                Ok((new_value, mut outgoing)) => {
                    let ghost ogv = crate::wire::view_pair_list(outgoing@);
                    let ghost nvv: Option<Seq<u8>> = match new_value {
                        Some(ref nv) => Some(nv@),
                        None => None,
                    };
                    let ghost pre_updates = crate::wire::view_pair_list(updates@);
                    let ghost pre_outbox = crate::wire::view_pair_list(outbox@);
                    match new_value {
                        Some(nv) => {
                            updates.push((id, nv));
                        },
                        None => {},
                    }
                    outbox.append(&mut outgoing);
                    proof {
                        let pre_outs = outs;
                        outs = outs.push(
                            VertexComputation {
                                vertex_id: idv,
                                vertex_value: old(self).store.vertices_view()[i as int].1,
                                out_edges: oev,
                                messages: msgs_v,
                                new_value: nvv,
                                outgoing: ogv,
                            },
                        );
                        assert(outs.drop_last() =~= pre_outs);
                        assert(spec_superstep_updates(outs) == spec_superstep_updates(
                            outs.drop_last(),
                        ) + (match nvv {
                            Some(nv) => seq![(idv, nv)],
                            None => Seq::<(Seq<u8>, Seq<u8>)>::empty(),
                        }));
                        match nvv {
                            Some(nv) => {
                                assert(crate::wire::view_pair_list(updates@) =~= pre_updates
                                    + seq![(idv, nv)]);
                            },
                            None => {
                                assert(pre_updates + Seq::<(Seq<u8>, Seq<u8>)>::empty()
                                    =~= pre_updates);
                            },
                        }
                        assert(crate::wire::view_pair_list(outbox@) =~= pre_outbox + ogv);
                    }
                },
                Err(e) => {
                    self.terminated = true;
                    return Err(e);
                },
            }
            i += 1;
        }
        self.algorithm = Some(algo);
        let ghost pre_vs = self.store.vertices_view();
        let ghost updates_v = crate::wire::view_pair_list(updates@);
        if updates.len() > 0 {
            self.store.put_vertex_batch(updates);
        } else {
            proof {
                assert(spec_vput_all(pre_vs, updates_v) == pre_vs);
            }
        }
        let ghost obv = crate::wire::view_pair_list(outbox@);
        let replies = slice_outbox(outbox, iteration);
        proof {
            assert(superstep_witness(
                old(self).store.vertices_view(),
                old(self).store.edges_view(),
                pre_pending,
                iteration,
                self.store.vertices_view(),
                replies@,
                outs,
            ));
        }
        Ok((replies, None))
    }

    /// Install the snapshot bytes read back for a `LoadCheckpoint`: the
    /// store becomes exactly the snapshotted one, and the reply acknowledges
    /// it; bytes that are not a whole snapshot leave the store unchanged and
    /// reply with an error frame.
    pub fn install_snapshot(&mut self, bytes: &Vec<u8>) -> (r: Vec<WorkerToDriver>)
        ensures
            final(self).terminated == old(self).terminated,
            r@.len() == 1,
            match spec_restore(bytes@) {
                Some((v, a)) => final(self).store.vertices_view() == v
                    && final(self).store.edges_view() == a && r@[0]@ is CheckpointLoaded,
                None => final(self).store == old(self).store && r@[0]@ is Error,
            },
    {
        let mut replies: Vec<WorkerToDriver> = Vec::new();
        match GraphState::restore(bytes) {
            Some(s) => {
                self.store = s;
                replies.push(WorkerToDriver::CheckpointLoaded);
            },
            None => {
                replies.push(
                    WorkerToDriver::Error {
                        message: <String as vstd::string::StringExecFns>::from_str(
                            "snapshot restore failed",
                        ),
                    },
                );
            },
        }
        replies
    }

    /// The reply after the caller wrote a checkpoint snapshot: an
    /// acknowledgement on success, an error frame with the message
    /// otherwise.
    pub fn snapshot_written(&self, ok: bool, message: String) -> (r: Vec<WorkerToDriver>)
        ensures
            r@.len() == 1,
            ok ==> r@[0]@ is CheckpointCreated,
            !ok ==> r@[0]@ == (WorkerToDriverView::Error { message: message@ }),
    {
        let mut replies: Vec<WorkerToDriver> = Vec::new();
        if ok {
            replies.push(WorkerToDriver::CheckpointCreated);
        } else {
            replies.push(WorkerToDriver::Error { message });
        }
        replies
    }

    /// The reply after the caller wrote a vertex dump: the path on success,
    /// an error frame otherwise.
    pub fn csv_written(&self, ok: bool, output_path: String, message: String) -> (r: Vec<
        WorkerToDriver,
    >)
        ensures
            r@.len() == 1,
            ok ==> r@[0]@ == (WorkerToDriverView::VerticesDumped { output_path: output_path@ }),
            !ok ==> r@[0]@ == (WorkerToDriverView::Error { message: message@ }),
    {
        let mut replies: Vec<WorkerToDriver> = Vec::new();
        if ok {
            replies.push(WorkerToDriver::VerticesDumped { output_path });
        } else {
            replies.push(WorkerToDriver::Error { message });
        }
        replies
    }
}

/// The slice of an outbox carried by frame `i`.
pub open spec fn spec_outbox_slice(ob: Seq<(Seq<u8>, Seq<u8>)>, i: int) -> Seq<(Seq<u8>, Seq<u8>)> {
    ob.subrange(
        i * BATCH_ENTRIES as int,
        if (i + 1) * (BATCH_ENTRIES as int) <= ob.len() {
            (i + 1) * BATCH_ENTRIES as int
        } else {
            ob.len() as int
        },
    )
}

/// Cut an outbox into `SuperstepResultBatch` frames of at most
/// `BATCH_ENTRIES` messages, only the final frame marked last; an empty
/// outbox still yields exactly one terminal frame.
pub fn slice_outbox(outbox: Vec<(Vec<u8>, Vec<u8>)>, iteration: u64) -> (r: Vec<WorkerToDriver>)
    ensures
        wf_result_batches(r@, iteration),
        r@.len() == if outbox@.len() == 0 {
            1int
        } else {
            (outbox@.len() + BATCH_ENTRIES - 1) as int / BATCH_ENTRIES as int
        },
        forall|i: int|
            0 <= i < r@.len() ==> ((#[trigger] r@[i]@) matches
                WorkerToDriverView::SuperstepResultBatch { outbox: sl, .. } && sl
                == spec_outbox_slice(crate::wire::view_pair_list(outbox@), i)),
{
    let mut replies: Vec<WorkerToDriver> = Vec::new();
    let ghost obv = crate::wire::view_pair_list(outbox@);
    let total = outbox.len();
    if total == 0 {
        let empty: Vec<(Vec<u8>, Vec<u8>)> = Vec::new();
        proof {
            assert(crate::wire::view_pair_list(empty@) =~= spec_outbox_slice(obv, 0));
        }
        replies.push(WorkerToDriver::SuperstepResultBatch { iteration, outbox: empty, last: true });
        return replies;
    }
    let mut rest = outbox;
    let mut offset: usize = 0;
    proof {
        assert(obv.skip(0) =~= obv);
        assert(crate::wire::view_pair_list(rest@) =~= obv);
    }
    while offset < total
        invariant
            obv == crate::wire::view_pair_list(outbox@),
            offset <= total,
            total == obv.len(),
            offset % BATCH_ENTRIES == 0,
            offset < total,
            crate::wire::view_pair_list(rest@) == obv.skip(offset as int),
            replies@.len() == offset as int / BATCH_ENTRIES as int,
            forall|i: int|
                0 <= i < replies@.len() ==> ((#[trigger] replies@[i]@) matches
                    WorkerToDriverView::SuperstepResultBatch { iteration: it, outbox: sl, last }
                    && it == iteration && sl == spec_outbox_slice(obv, i) && sl.len()
                    <= BATCH_ENTRIES && !last),
            BATCH_ENTRIES as int * replies@.len() == offset,
        decreases total - offset,
    {
        let remaining = total - offset;
        let take_n = if remaining < BATCH_ENTRIES {
            remaining
        } else {
            BATCH_ENTRIES
        };
        let ghost pre_rest = crate::wire::view_pair_list(rest@);
        let mut slice: Vec<(Vec<u8>, Vec<u8>)> = Vec::new();
        let mut j: usize = 0;
        proof {
            assert(pre_rest.len() == rest@.len());
            assert(pre_rest.skip(0) =~= pre_rest);
            assert(crate::wire::view_pair_list(slice@) =~= pre_rest.take(0));
        }
        while j < take_n
            invariant
                j <= take_n,
                take_n <= pre_rest.len(),
                pre_rest.len() == rest@.len() + j,
                slice@.len() == j,
                crate::wire::view_pair_list(rest@) == pre_rest.skip(j as int),
                crate::wire::view_pair_list(slice@) == pre_rest.take(j as int),
            decreases take_n - j,
        {
            proof {
                assert(rest@.len() == pre_rest.skip(j as int).len());
            }
            let ghost prev = rest@;
            let ghost prev_slice = slice@;
            let item = rest.remove(0);
            let ghost iv = (item.0@, item.1@);
            slice.push(item);
            proof {
                assert(crate::wire::view_pair_list(prev) == pre_rest.skip(j as int));
                assert(crate::wire::view_pair_list(prev)[0] == iv);
                assert(pre_rest.skip(j as int)[0] == iv);
                assert(rest@ =~= prev.drop_first());
                assert(slice@ =~= prev_slice.push(item));
                assert forall|q: int|
                    0 <= q < rest@.len() implies crate::wire::view_pair_list(rest@)[q]
                    == pre_rest.skip(j + 1)[q] by {
                    assert(rest@[q] == prev[q + 1]);
                    assert(crate::wire::view_pair_list(prev)[q + 1] == (prev[q + 1].0@, prev[q
                        + 1].1@));
                    assert(pre_rest.skip(j as int)[q + 1] == pre_rest[j + 1 + q]);
                }
                assert(crate::wire::view_pair_list(rest@) =~= pre_rest.skip(j + 1));
                assert forall|q: int|
                    0 <= q < slice@.len() implies crate::wire::view_pair_list(slice@)[q]
                    == pre_rest.take(j + 1)[q] by {
                    if q < j {
                        assert(slice@[q] == prev_slice[q]);
                        assert(crate::wire::view_pair_list(prev_slice)[q] == (prev_slice[q].0@,
                            prev_slice[q].1@));
                    } else {
                        assert(slice@[q] == item);
                    }
                }
                assert(crate::wire::view_pair_list(slice@) =~= pre_rest.take(j + 1));
            }
            j += 1;
        }
        let last = take_n == remaining;
        proof {
            assert(pre_rest =~= obv.skip(offset as int));
            assert(pre_rest.take(take_n as int) =~= spec_outbox_slice(
                obv,
                offset as int / BATCH_ENTRIES as int,
            ));
        }
        let ghost pre_replies = replies@;
        let ghost slice_view = crate::wire::view_pair_list(slice@);
        replies.push(
            WorkerToDriver::SuperstepResultBatch { iteration, outbox: slice, last },
        );
        proof {
            assert(replies@.len() == pre_replies.len() + 1);
            assert(replies@[pre_replies.len() as int]@ == (
            WorkerToDriverView::SuperstepResultBatch {
                iteration,
                outbox: slice_view,
                last,
            }));
            assert(forall|i: int| 0 <= i < pre_replies.len() ==> replies@[i] == pre_replies[i]);
        }
        if last {
            proof {
                assert(offset as int / BATCH_ENTRIES as int + 1 == (obv.len() + BATCH_ENTRIES
                    - 1) as int / BATCH_ENTRIES as int) by (nonlinear_arith)
                    requires
                        take_n == obv.len() - offset,
                        0 < take_n <= BATCH_ENTRIES,
                        offset as int == BATCH_ENTRIES as int * (offset as int
                            / BATCH_ENTRIES as int),
                        BATCH_ENTRIES == 256,
                ;
                assert(obv.len() == outbox@.len());
                assert(replies@.len() == (outbox@.len() + BATCH_ENTRIES - 1) as int
                    / BATCH_ENTRIES as int);
                assert forall|i: int| 0 <= i < replies@.len() implies ((#[trigger] replies@[i]@)
                    matches WorkerToDriverView::SuperstepResultBatch { outbox: sl, .. } && sl
                    == spec_outbox_slice(obv, i)) by {
                    if i < pre_replies.len() {
                        assert(replies@[i] == pre_replies[i]);
                    } else {
                        assert(i == pre_replies.len());
                        assert(slice_view == spec_outbox_slice(obv, i));
                    }
                }
                assert(obv == crate::wire::view_pair_list(outbox@));
            }
            return replies;
        }
        offset += BATCH_ENTRIES;
        proof {
            assert(offset as int / BATCH_ENTRIES as int == (offset - BATCH_ENTRIES) as int
                / BATCH_ENTRIES as int + 1) by (nonlinear_arith)
                requires
                    offset >= BATCH_ENTRIES,
                    ((offset - BATCH_ENTRIES) as int) % (BATCH_ENTRIES as int) == 0,
                    BATCH_ENTRIES == 256,
            ;
        }
    }
    replies
}

} // verus!
// ---------------------------------------------------------------------------
// Batching loses nothing: the slices of an outbox reassemble to it.
// ---------------------------------------------------------------------------

verus! {

/// The first `k` outbox slices, concatenated.
pub open spec fn spec_concat_slices(ob: Seq<(Seq<u8>, Seq<u8>)>, k: int) -> Seq<(Seq<u8>, Seq<u8>)>
    decreases k,
{
    if k <= 0 {
        Seq::empty()
    } else {
        spec_concat_slices(ob, k - 1) + spec_outbox_slice(ob, k - 1)
    }
}

/// The first `k` slices hold exactly the first `min(k * BATCH_ENTRIES, len)`
/// messages of the outbox, in order.
pub proof fn lemma_concat_slices_prefix(ob: Seq<(Seq<u8>, Seq<u8>)>, k: int)
    requires
        k >= 0,
        k == 0 || (k - 1) * (BATCH_ENTRIES as int) <= ob.len(),
    ensures
        spec_concat_slices(ob, k) == ob.take(
            if k * (BATCH_ENTRIES as int) <= ob.len() {
                k * BATCH_ENTRIES as int
            } else {
                ob.len() as int
            },
        ),
    decreases k,
{
    if k == 0 {
        assert(ob.take(0) =~= Seq::<(Seq<u8>, Seq<u8>)>::empty());
    } else {
        assert((k - 1) * (BATCH_ENTRIES as int) == k * (BATCH_ENTRIES as int)
            - BATCH_ENTRIES as int) by (nonlinear_arith);
        assert(k >= 2 ==> (k - 2) * (BATCH_ENTRIES as int) == (k - 1) * (BATCH_ENTRIES as int)
            - BATCH_ENTRIES as int) by (nonlinear_arith);
        lemma_concat_slices_prefix(ob, k - 1);
        let prev_end: int = (k - 1) * BATCH_ENTRIES as int;
        let this_end: int = if k * (BATCH_ENTRIES as int) <= ob.len() {
            k * BATCH_ENTRIES as int
        } else {
            ob.len() as int
        };
        assert(ob.take(prev_end) + spec_outbox_slice(ob, k - 1) =~= ob.take(this_end));
    }
}

/// Batch conservation: cutting an outbox into result frames and
/// concatenating the frames' slices gives back exactly the outbox — no
/// message is lost, duplicated or reordered by the batching. `count` is the
/// frame count `slice_outbox` produces.
pub proof fn lemma_slices_reassemble(ob: Seq<(Seq<u8>, Seq<u8>)>, count: int)
    requires
        count == if ob.len() == 0 {
            1int
        } else {
            (ob.len() + BATCH_ENTRIES - 1) as int / BATCH_ENTRIES as int
        },
    ensures
        spec_concat_slices(ob, count) == ob,
{
    assert((count - 1) * (BATCH_ENTRIES as int) <= ob.len() && count * (BATCH_ENTRIES as int)
        >= ob.len()) by (nonlinear_arith)
        requires
            count == if ob.len() == 0 {
                1int
            } else {
                (ob.len() + BATCH_ENTRIES - 1) as int / BATCH_ENTRIES as int
            },
            BATCH_ENTRIES == 256,
    ;
    lemma_concat_slices_prefix(ob, count);
    assert(ob.take(ob.len() as int) =~= ob);
}

} // verus!
