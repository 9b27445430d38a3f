//! The driver: the pure half of superstep orchestration.
//!
//! The driver connects to every worker, loads the graph, and runs rounds:
//! per round it cuts each worker's inbox into `SuperstepBatch` frames of at
//! most `BATCH_ENTRIES` entries ending with a `last` frame, then collects
//! each worker's run of `SuperstepResultBatch` frames, routing every slice
//! through the shuffle into the next inboxes and recording whether any
//! message is in flight. The functions here decide everything; the caller
//! owns the sockets and hands frames in and out.

use vstd::prelude::*;
use crate::error::{GeaFlowError, GeaFlowResult};
use crate::protocol::{DriverToWorker, DriverToWorkerView, WorkerToDriver};
use crate::shuffle::{Inbox, Inboxes, view_inboxes, spec_route, route_outbox_into};
use crate::partition::{partition_of_bytes, spec_partition_of};
use crate::worker::BATCH_ENTRIES;

verus! {

/// One empty inbox per partition; a worker count below one counts as one.
pub fn new_inboxes(worker_count: usize) -> (r: Inboxes)
    ensures
        r@.len() == if worker_count < 1 {
            1int
        } else {
            worker_count as int
        },
        forall|i: int| 0 <= i < r@.len() ==> (#[trigger] r@[i])@.len() == 0,
{
    let n = if worker_count < 1 {
        1
    } else {
        worker_count
    };
    let mut r: Inboxes = Vec::new();
    let mut i: usize = 0;
    while i < n
        invariant
            i <= n,
            r@.len() == i,
            forall|j: int| 0 <= j < i ==> (#[trigger] r@[j])@.len() == 0,
        decreases n - i,
    {
        r.push(Inbox::new());
        i += 1;
    }
    r
}

/// Inbox frames are well-formed for an iteration: at least one frame, all
/// `SuperstepBatch` frames for that iteration, each with at most
/// `BATCH_ENTRIES` entries, exactly the final frame marked last.
pub open spec fn wf_inbox_frames(frames: Seq<DriverToWorker>, iteration: u64) -> bool {
    &&& frames.len() >= 1
    &&& forall|i: int|
        0 <= i < frames.len() ==> ((#[trigger] frames[i]@) matches
            DriverToWorkerView::SuperstepBatch { iteration: it, inbox, last } && it == iteration
            && inbox.len() <= BATCH_ENTRIES && (last <==> i == frames.len() - 1))
}

/// The entries of an inbox carried by frame `i`.
pub open spec fn spec_entry_slice(en: Seq<(Seq<u8>, Seq<Seq<u8>>)>, i: int) -> Seq<
    (Seq<u8>, Seq<Seq<u8>>),
> {
    en.subrange(
        i * BATCH_ENTRIES as int,
        if (i + 1) * (BATCH_ENTRIES as int) <= en.len() {
            (i + 1) * BATCH_ENTRIES as int
        } else {
            en.len() as int
        },
    )
}

/// Cut a worker's inbox into `SuperstepBatch` frames of at most
/// `BATCH_ENTRIES` entries, only the final frame marked last; an empty
/// inbox still yields exactly one terminal frame.
pub fn inbox_frames(inbox: Inbox, iteration: u64) -> (r: Vec<DriverToWorker>)
    ensures
        wf_inbox_frames(r@, iteration),
        forall|i: int|
            0 <= i < r@.len() ==> ((#[trigger] r@[i]@) matches DriverToWorkerView::SuperstepBatch {
                inbox: sl,
                ..
            } && sl == spec_entry_slice(inbox@, i)),
{
    let mut frames: Vec<DriverToWorker> = Vec::new();
    let mut source = inbox;
    let ghost env = source@;
    let entries = source.take_entries();
    let total = entries.len();
    if total == 0 {
        let empty: Vec<(Vec<u8>, Vec<Vec<u8>>)> = Vec::new();
        proof {
            assert(crate::wire::view_entry_list(empty@) =~= spec_entry_slice(env, 0));
        }
        frames.push(DriverToWorker::SuperstepBatch { iteration, inbox: empty, last: true });
        return frames;
    }
    let mut rest = entries;
    let mut offset: usize = 0;
    proof {
        assert(env.skip(0) =~= env);
        assert(crate::wire::view_entry_list(rest@) =~= env);
    }
    while offset < total
        invariant
            env == inbox@,
            offset < total,
            total == env.len(),
            offset % BATCH_ENTRIES == 0,
            crate::wire::view_entry_list(rest@) == env.skip(offset as int),
            frames@.len() == offset as int / BATCH_ENTRIES as int,
            forall|i: int|
                0 <= i < frames@.len() ==> ((#[trigger] frames@[i]@) matches
                    DriverToWorkerView::SuperstepBatch { iteration: it, inbox: sl, last } && it
                    == iteration && sl == spec_entry_slice(env, i) && sl.len() <= BATCH_ENTRIES
                    && !last),
            BATCH_ENTRIES as int * frames@.len() == offset,
        decreases total - offset,
    {
        let remaining = total - offset;
        let take_n = if remaining < BATCH_ENTRIES {
            remaining
        } else {
            BATCH_ENTRIES
        };
        let ghost pre_rest = crate::wire::view_entry_list(rest@);
        let mut slice: Vec<(Vec<u8>, Vec<Vec<u8>>)> = Vec::new();
        let mut j: usize = 0;
        proof {
            assert(pre_rest.len() == rest@.len());
            assert(pre_rest.skip(0) =~= pre_rest);
            assert(crate::wire::view_entry_list(slice@) =~= pre_rest.take(0));
        }
        while j < take_n
            invariant
                j <= take_n,
                take_n <= pre_rest.len(),
                pre_rest.len() == rest@.len() + j,
                slice@.len() == j,
                crate::wire::view_entry_list(rest@) == pre_rest.skip(j as int),
                crate::wire::view_entry_list(slice@) == pre_rest.take(j as int),
            decreases take_n - j,
        {
            let ghost prev = rest@;
            let ghost prev_slice = slice@;
            let item = rest.remove(0);
            let ghost iv = (item.0@, crate::wire::view_byte_list(item.1@));
            slice.push(item);
            proof {
                assert(crate::wire::view_entry_list(prev)[0] == iv);
                assert(pre_rest.skip(j as int)[0] == iv);
                assert forall|q: int|
                    0 <= q < rest@.len() implies crate::wire::view_entry_list(rest@)[q]
                    == pre_rest.skip(j + 1)[q] by {
                    assert(rest@[q] == prev[q + 1]);
                    assert(crate::wire::view_entry_list(prev)[q + 1] == (prev[q + 1].0@,
                        crate::wire::view_byte_list(prev[q + 1].1@)));
                    assert(pre_rest.skip(j as int)[q + 1] == pre_rest[j + 1 + q]);
                }
                assert(crate::wire::view_entry_list(rest@) =~= pre_rest.skip(j + 1));
                assert forall|q: int|
                    0 <= q < slice@.len() implies crate::wire::view_entry_list(slice@)[q]
                    == pre_rest.take(j + 1)[q] by {
                    if q < j {
                        assert(slice@[q] == prev_slice[q]);
                        assert(crate::wire::view_entry_list(prev_slice)[q] == (prev_slice[q].0@,
                            crate::wire::view_byte_list(prev_slice[q].1@)));
                    } else {
                        assert(slice@[q] == item);
                    }
                }
                assert(crate::wire::view_entry_list(slice@) =~= pre_rest.take(j + 1));
            }
            j += 1;
        }
        let last = take_n == remaining;
        proof {
            assert(pre_rest =~= env.skip(offset as int));
            assert(pre_rest.take(take_n as int) =~= spec_entry_slice(
                env,
                offset as int / BATCH_ENTRIES as int,
            ));
        }
        let ghost pre_frames = frames@;
        let ghost slice_view = crate::wire::view_entry_list(slice@);
        frames.push(DriverToWorker::SuperstepBatch { iteration, inbox: slice, last });
        proof {
            assert(frames@.len() == pre_frames.len() + 1);
            assert(frames@[pre_frames.len() as int]@ == (DriverToWorkerView::SuperstepBatch {
                iteration,
                inbox: slice_view,
                last,
            }));
            assert(forall|i: int| 0 <= i < pre_frames.len() ==> frames@[i] == pre_frames[i]);
        }
        if last {
            proof {
                assert forall|i: int| 0 <= i < frames@.len() implies ((#[trigger] frames@[i]@)
                    matches DriverToWorkerView::SuperstepBatch { inbox: sl, .. } && sl
                    == spec_entry_slice(env, i)) by {
                    if i < pre_frames.len() {
                        assert(frames@[i] == pre_frames[i]);
                    } else {
                        assert(i == pre_frames.len());
                        assert(slice_view == spec_entry_slice(env, i));
                    }
                }
            }
            return frames;
        }
        offset += BATCH_ENTRIES;
        proof {
            assert(offset as int / BATCH_ENTRIES as int == (offset - BATCH_ENTRIES) as int
                / BATCH_ENTRIES as int + 1) by (nonlinear_arith)
                requires
                    offset >= BATCH_ENTRIES,
                    ((offset - BATCH_ENTRIES) as int) % (BATCH_ENTRIES as int) == 0,
                    BATCH_ENTRIES == 256,
            ;
        }
    }
    proof {
        assert(false);
    }
    frames
}

/// Collects one worker's result frames for a superstep round, routing every
/// outbox slice through the shuffle into the next inboxes.
pub struct RoundCollector {
    pub partitions: usize,
    pub iteration: u64,
    pub next_inboxes: Inboxes,
    pub any_msg: bool,
}

impl RoundCollector {
    /// A collector for one round: fresh empty inboxes, nothing in flight.
    pub fn new(iteration: u64, worker_count: usize) -> (r: Self)
        ensures
            r.partitions == worker_count,
            r.iteration == iteration,
            !r.any_msg,
            r.next_inboxes@.len() == if worker_count < 1 {
                1int
            } else {
                worker_count as int
            },
            forall|i: int|
                0 <= i < r.next_inboxes@.len() ==> (#[trigger] r.next_inboxes@[i])@.len() == 0,
    {
        RoundCollector {
            partitions: worker_count,
            iteration,
            next_inboxes: new_inboxes(worker_count),
            any_msg: false,
        }
    }

    /// Take in one frame from a worker. `Ok(true)` closes that worker's run
    /// for the round; an `Error` frame or a frame of any other kind aborts
    /// the round, and with it the job.
    pub fn accept(&mut self, frame: WorkerToDriver) -> (r: GeaFlowResult<bool>)
        requires
            old(self).next_inboxes@.len() >= 1,
            old(self).next_inboxes@.len() >= old(self).partitions,
        ensures
            frame@ matches crate::protocol::WorkerToDriverView::SuperstepResultBatch {
                iteration: it,
                outbox,
                last,
            } ==> {
                &&& r matches Ok(done) && done == last
                &&& view_inboxes(final(self).next_inboxes@) == spec_route(
                    outbox,
                    old(self).partitions as int,
                    view_inboxes(old(self).next_inboxes@),
                )
                &&& final(self).any_msg == (old(self).any_msg || outbox.len() > 0)
            },
            frame@ matches crate::protocol::WorkerToDriverView::SuperstepResult {
                iteration: it,
                outbox,
            } ==> {
                &&& r matches Ok(done) && done
                &&& view_inboxes(final(self).next_inboxes@) == spec_route(
                    outbox,
                    old(self).partitions as int,
                    view_inboxes(old(self).next_inboxes@),
                )
                &&& final(self).any_msg == (old(self).any_msg || outbox.len() > 0)
            },
            (frame@ is SuperstepResultBatch || frame@ is SuperstepResult) <==> r is Ok,
            final(self).partitions == old(self).partitions,
            final(self).iteration == old(self).iteration,
    {
        match frame {
            WorkerToDriver::SuperstepResultBatch { iteration: _, outbox, last } => {
                if outbox.len() > 0 {
                    self.any_msg = true;
                }
                route_outbox_into(outbox, self.partitions, &mut self.next_inboxes);
                Ok(last)
            },
            WorkerToDriver::SuperstepResult { iteration: _, outbox } => {
                if outbox.len() > 0 {
                    self.any_msg = true;
                }
                route_outbox_into(outbox, self.partitions, &mut self.next_inboxes);
                Ok(true)
            },
            WorkerToDriver::Error { message } => Err(GeaFlowError::Internal(message)),
            _ => Err(
                GeaFlowError::Internal(
                    <String as vstd::string::StringExecFns>::from_str(
                        "unexpected worker response",
                    ),
                ),
            ),
        }
    }

    /// The round's outcome: the next inboxes and whether any message is in
    /// flight.
    pub fn into_result(self) -> (r: (Inboxes, bool))
        ensures
            r.0 == self.next_inboxes,
            r.1 == self.any_msg,
    {
        (self.next_inboxes, self.any_msg)
    }
}

/// Routing a load batch: each vertex goes to the bucket of its partition.
pub open spec fn spec_route_vertices(
    items: Seq<(Seq<u8>, Seq<u8>)>,
    partitions: int,
    buckets: Seq<Seq<(Seq<u8>, Seq<u8>)>>,
) -> Seq<Seq<(Seq<u8>, Seq<u8>)>>
    decreases items.len(),
{
    if items.len() == 0 {
        buckets
    } else {
        let p = spec_partition_of(items[0].0, partitions);
        spec_route_vertices(
            items.drop_first(),
            partitions,
            buckets.update(p, buckets[p].push(items[0])),
        )
    }
}

/// Routing edges: each edge goes to the bucket of its source's partition.
pub open spec fn spec_route_edges(
    items: Seq<(Seq<u8>, Seq<u8>, Seq<u8>)>,
    partitions: int,
    buckets: Seq<Seq<(Seq<u8>, Seq<u8>, Seq<u8>)>>,
) -> Seq<Seq<(Seq<u8>, Seq<u8>, Seq<u8>)>>
    decreases items.len(),
{
    if items.len() == 0 {
        buckets
    } else {
        let p = spec_partition_of(items[0].0, partitions);
        spec_route_edges(
            items.drop_first(),
            partitions,
            buckets.update(p, buckets[p].push(items[0])),
        )
    }
}

/// Split a whole vertex list into one load per worker: each vertex lands in
/// the bucket of `partition_of(id)`, in input order.
pub fn partition_vertices(vertices: Vec<(Vec<u8>, Vec<u8>)>, partitions: usize) -> (r: Vec<
    Vec<(Vec<u8>, Vec<u8>)>,
>)
    requires
        partitions >= 1,
    ensures
        r@.len() == partitions,
        view_vertex_buckets(r@) == spec_route_vertices(
            crate::wire::view_pair_list(vertices@),
            partitions as int,
            empty_vertex_buckets(partitions as int),
        ),
{
    let ghost items = crate::wire::view_pair_list(vertices@);
    let mut buckets: Vec<Vec<(Vec<u8>, Vec<u8>)>> = Vec::new();
    let mut i: usize = 0;
    while i < partitions
        invariant
            i <= partitions,
            buckets@.len() == i,
            forall|j: int| 0 <= j < i ==> (#[trigger] buckets@[j])@.len() == 0,
        decreases partitions - i,
    {
        buckets.push(Vec::new());
        i += 1;
    }
    proof {
        assert(view_vertex_buckets(buckets@) =~~= empty_vertex_buckets(partitions as int));
    }
    let ghost base = view_vertex_buckets(buckets@);
    let n = vertices.len();
    let mut rest = vertices;
    let mut k: usize = 0;
    proof {
        assert(items.skip(0) =~= items);
        assert(crate::wire::view_pair_list(rest@) =~= items);
    }
    while k < n
        invariant
            k <= n,
            n == items.len(),
            partitions >= 1,
            buckets@.len() == partitions,
            crate::wire::view_pair_list(rest@) == items.skip(k as int),
            spec_route_vertices(items, partitions as int, base) == spec_route_vertices(
                items.skip(k as int),
                partitions as int,
                view_vertex_buckets(buckets@),
            ),
        decreases n - k,
    {
        proof {
            assert(rest@.len() == items.skip(k as int).len());
        }
        let (id, value) = rest.remove(0);
        let p = partition_of_bytes(id.as_slice(), partitions);
        let ghost idv = id@;
        let ghost valv = value@;
        let ghost pre = view_vertex_buckets(buckets@);
        let bucket = vstd::std_specs::vec::vec_index_mut(&mut buckets, p);
        bucket.push((id, value));
        proof {
            assert(items.skip(k as int)[0] == (idv, valv));
            assert(spec_partition_of(idv, partitions as int) == p as int);
            assert(view_vertex_buckets(buckets@) =~~= pre.update(
                p as int,
                pre[p as int].push((idv, valv)),
            ));
            assert(items.skip(k as int).drop_first() =~= items.skip(k + 1));
            assert(crate::wire::view_pair_list(rest@) =~= items.skip(k + 1));
        }
        k += 1;
    }
    proof {
        assert(items.skip(n as int) =~= Seq::<(Seq<u8>, Seq<u8>)>::empty());
    }
    buckets
}

/// The views of per-worker vertex buckets.
pub open spec fn view_vertex_buckets(v: Seq<Vec<(Vec<u8>, Vec<u8>)>>) -> Seq<
    Seq<(Seq<u8>, Seq<u8>)>,
> {
    v.map_values(|b: Vec<(Vec<u8>, Vec<u8>)>| crate::wire::view_pair_list(b@))
}

/// `partitions` empty vertex buckets.
pub open spec fn empty_vertex_buckets(partitions: int) -> Seq<Seq<(Seq<u8>, Seq<u8>)>> {
    Seq::new(partitions as nat, |i: int| Seq::<(Seq<u8>, Seq<u8>)>::empty())
}

/// Split a whole edge list into one load per worker: each edge lands in the
/// bucket of `partition_of(src)`, in input order.
pub fn partition_edges(edges: Vec<(Vec<u8>, Vec<u8>, Vec<u8>)>, partitions: usize) -> (r: Vec<
    Vec<(Vec<u8>, Vec<u8>, Vec<u8>)>,
>)
    requires
        partitions >= 1,
    ensures
        r@.len() == partitions,
        view_edge_buckets(r@) == spec_route_edges(
            crate::wire::view_triple_list(edges@),
            partitions as int,
            empty_edge_buckets(partitions as int),
        ),
{
    let ghost items = crate::wire::view_triple_list(edges@);
    let mut buckets: Vec<Vec<(Vec<u8>, Vec<u8>, Vec<u8>)>> = Vec::new();
    let mut i: usize = 0;
    while i < partitions
        invariant
            i <= partitions,
            buckets@.len() == i,
            forall|j: int| 0 <= j < i ==> (#[trigger] buckets@[j])@.len() == 0,
        decreases partitions - i,
    {
        buckets.push(Vec::new());
        i += 1;
    }
    proof {
        assert(view_edge_buckets(buckets@) =~~= empty_edge_buckets(partitions as int));
    }
    let ghost base = view_edge_buckets(buckets@);
    let n = edges.len();
    let mut rest = edges;
    let mut k: usize = 0;
    proof {
        assert(items.skip(0) =~= items);
        assert(crate::wire::view_triple_list(rest@) =~= items);
    }
    while k < n
        invariant
            k <= n,
            n == items.len(),
            partitions >= 1,
            buckets@.len() == partitions,
            crate::wire::view_triple_list(rest@) == items.skip(k as int),
            spec_route_edges(items, partitions as int, base) == spec_route_edges(
                items.skip(k as int),
                partitions as int,
                view_edge_buckets(buckets@),
            ),
        decreases n - k,
    {
        proof {
            assert(rest@.len() == items.skip(k as int).len());
        }
        let (src, target, value) = rest.remove(0);
        let p = partition_of_bytes(src.as_slice(), partitions);
        let ghost sv = src@;
        let ghost tv = target@;
        let ghost vv = value@;
        let ghost pre = view_edge_buckets(buckets@);
        let bucket = vstd::std_specs::vec::vec_index_mut(&mut buckets, p);
        bucket.push((src, target, value));
        proof {
            assert(items.skip(k as int)[0] == (sv, tv, vv));
            assert(spec_partition_of(sv, partitions as int) == p as int);
            assert(view_edge_buckets(buckets@) =~~= pre.update(
                p as int,
                pre[p as int].push((sv, tv, vv)),
            ));
            assert(items.skip(k as int).drop_first() =~= items.skip(k + 1));
            assert(crate::wire::view_triple_list(rest@) =~= items.skip(k + 1));
        }
        k += 1;
    }
    proof {
        assert(items.skip(n as int) =~= Seq::<(Seq<u8>, Seq<u8>, Seq<u8>)>::empty());
    }
    buckets
}

/// The views of per-worker edge buckets.
pub open spec fn view_edge_buckets(v: Seq<Vec<(Vec<u8>, Vec<u8>, Vec<u8>)>>) -> Seq<
    Seq<(Seq<u8>, Seq<u8>, Seq<u8>)>,
> {
    v.map_values(|b: Vec<(Vec<u8>, Vec<u8>, Vec<u8>)>| crate::wire::view_triple_list(b@))
}

/// `partitions` empty edge buckets.
pub open spec fn empty_edge_buckets(partitions: int) -> Seq<Seq<(Seq<u8>, Seq<u8>, Seq<u8>)>> {
    Seq::new(partitions as nat, |i: int| Seq::<(Seq<u8>, Seq<u8>, Seq<u8>)>::empty())
}

/// The streaming loader's per-worker buffers: vertices and edges routed by
/// partition, flushed as a `LoadGraphBatch` whenever a buffer reaches the
/// configured batch size.
pub struct LoadBuffers {
    pub partitions: usize,
    pub vertex_batch_size: usize,
    pub edge_batch_size: usize,
    pub v_bufs: Vec<Vec<(Vec<u8>, Vec<u8>)>>,
    pub e_bufs: Vec<Vec<(Vec<u8>, Vec<u8>, Vec<u8>)>>,
}

impl LoadBuffers {
    /// Whether the buffers are sized to the partition count.
    pub open spec fn wf(&self) -> bool {
        &&& self.partitions >= 1
        &&& self.v_bufs@.len() == self.partitions
        &&& self.e_bufs@.len() == self.partitions
        &&& self.vertex_batch_size >= 1
        &&& self.edge_batch_size >= 1
    }

    /// Fresh empty buffers; batch sizes below one count as one.
    pub fn new(partitions: usize, vertex_batch_size: usize, edge_batch_size: usize) -> (r: Self)
        requires
            partitions >= 1,
        ensures
            r.wf(),
            r.partitions == partitions,
    {
        let mut v_bufs: Vec<Vec<(Vec<u8>, Vec<u8>)>> = Vec::new();
        let mut e_bufs: Vec<Vec<(Vec<u8>, Vec<u8>, Vec<u8>)>> = Vec::new();
        let mut i: usize = 0;
        while i < partitions
            invariant
                i <= partitions,
                v_bufs@.len() == i,
                e_bufs@.len() == i,
            decreases partitions - i,
        {
            v_bufs.push(Vec::new());
            e_bufs.push(Vec::new());
            i += 1;
        }
        LoadBuffers {
            partitions,
            vertex_batch_size: if vertex_batch_size < 1 {
                1
            } else {
                vertex_batch_size
            },
            edge_batch_size: if edge_batch_size < 1 {
                1
            } else {
                edge_batch_size
            },
            v_bufs,
            e_bufs,
        }
    }

    /// Buffer one vertex under the partition of its id; when that buffer
    /// reaches the batch size, it is handed back whole — the buffered
    /// vertices of that partition in arrival order — for flushing to its
    /// worker as a `LoadGraphBatch` with `last` unset, leaving the buffer
    /// empty. No vertex is dropped and none changes partition.
    pub fn push_vertex(&mut self, id: Vec<u8>, value: Vec<u8>) -> (r: Option<
        (usize, Vec<(Vec<u8>, Vec<u8>)>),
    >)
        requires
            old(self).wf(),
        ensures
            final(self).wf(),
            final(self).partitions == old(self).partitions,
            final(self).vertex_batch_size == old(self).vertex_batch_size,
            final(self).edge_batch_size == old(self).edge_batch_size,
            view_edge_buckets(final(self).e_bufs@) == view_edge_buckets(old(self).e_bufs@),
            ({
                let p = spec_partition_of(id@, old(self).partitions as int);
                let grown = view_vertex_buckets(old(self).v_bufs@)[p].push((id@, value@));
                &&& (r is Some <==> grown.len() >= old(self).vertex_batch_size)
                &&& (match r {
                    Some((q, batch)) => {
                        &&& q as int == p
                        &&& crate::wire::view_pair_list(batch@) == grown
                        &&& view_vertex_buckets(final(self).v_bufs@) =~= view_vertex_buckets(
                            old(self).v_bufs@,
                        ).update(p, Seq::empty())
                    },
                    None => view_vertex_buckets(final(self).v_bufs@) =~= view_vertex_buckets(
                        old(self).v_bufs@,
                    ).update(p, grown),
                })
            }),
    {
        let ghost pre_v = view_vertex_buckets(self.v_bufs@);
        let ghost pre_e = view_edge_buckets(self.e_bufs@);
        let p = partition_of_bytes(id.as_slice(), self.partitions);
        let ghost idv = id@;
        let ghost valv = value@;
        let buf = vstd::std_specs::vec::vec_index_mut(&mut self.v_bufs, p);
        buf.push((id, value));
        let full = buf.len() >= self.vertex_batch_size;
        let mut out: Vec<(Vec<u8>, Vec<u8>)> = Vec::new();
        if full {
            core::mem::swap(&mut out, buf);
        }
        proof {
            assert(view_edge_buckets(self.e_bufs@) =~~= pre_e);
            if full {
                assert(view_vertex_buckets(self.v_bufs@) =~~= pre_v.update(
                    p as int,
                    Seq::empty(),
                ));
                assert(crate::wire::view_pair_list(out@) =~= pre_v[p as int].push((idv, valv)));
            } else {
                assert(view_vertex_buckets(self.v_bufs@) =~~= pre_v.update(
                    p as int,
                    pre_v[p as int].push((idv, valv)),
                ));
            }
        }
        if full {
            Some((p, out))
        } else {
            None
        }
    }

    /// Buffer one edge under the partition of its source; a buffer that
    /// reaches the batch size is handed back whole — that partition's
    /// buffered edges in arrival order — and left empty. No edge is dropped
    /// and none changes partition.
    pub fn push_edge(&mut self, src: Vec<u8>, target: Vec<u8>, value: Vec<u8>) -> (r: Option<
        (usize, Vec<(Vec<u8>, Vec<u8>, Vec<u8>)>),
    >)
        requires
            old(self).wf(),
        ensures
            final(self).wf(),
            final(self).partitions == old(self).partitions,
            final(self).vertex_batch_size == old(self).vertex_batch_size,
            final(self).edge_batch_size == old(self).edge_batch_size,
            view_vertex_buckets(final(self).v_bufs@) == view_vertex_buckets(old(self).v_bufs@),
            ({
                let p = spec_partition_of(src@, old(self).partitions as int);
                let grown = view_edge_buckets(old(self).e_bufs@)[p].push(
                    (src@, target@, value@),
                );
                &&& (r is Some <==> grown.len() >= old(self).edge_batch_size)
                &&& (match r {
                    Some((q, batch)) => {
                        &&& q as int == p
                        &&& crate::wire::view_triple_list(batch@) == grown
                        &&& view_edge_buckets(final(self).e_bufs@) =~= view_edge_buckets(
                            old(self).e_bufs@,
                        ).update(p, Seq::empty())
                    },
                    None => view_edge_buckets(final(self).e_bufs@) =~= view_edge_buckets(
                        old(self).e_bufs@,
                    ).update(p, grown),
                })
            }),
    {
        let ghost pre_v = view_vertex_buckets(self.v_bufs@);
        let ghost pre_e = view_edge_buckets(self.e_bufs@);
        let p = partition_of_bytes(src.as_slice(), self.partitions);
        let ghost sv = src@;
        let ghost tv = target@;
        let ghost vv = value@;
        let buf = vstd::std_specs::vec::vec_index_mut(&mut self.e_bufs, p);
        buf.push((src, target, value));
        let full = buf.len() >= self.edge_batch_size;
        let mut out: Vec<(Vec<u8>, Vec<u8>, Vec<u8>)> = Vec::new();
        if full {
            core::mem::swap(&mut out, buf);
        }
        proof {
            assert(view_vertex_buckets(self.v_bufs@) =~~= pre_v);
            if full {
                assert(view_edge_buckets(self.e_bufs@) =~~= pre_e.update(
                    p as int,
                    Seq::empty(),
                ));
                assert(crate::wire::view_triple_list(out@) =~= pre_e[p as int].push(
                    (sv, tv, vv),
                ));
            } else {
                assert(view_edge_buckets(self.e_bufs@) =~~= pre_e.update(
                    p as int,
                    pre_e[p as int].push((sv, tv, vv)),
                ));
            }
        }
        if full {
            Some((p, out))
        } else {
            None
        }
    }

    /// Drain the residual buffer of one partition: exactly its buffered
    /// vertices and edges, in arrival order, leaving that buffer empty and
    /// every other buffer untouched. Called for every partition after the
    /// input is exhausted, before the terminal empty batch.
    pub fn drain_partition(&mut self, p: usize) -> (r: (
        Vec<(Vec<u8>, Vec<u8>)>,
        Vec<(Vec<u8>, Vec<u8>, Vec<u8>)>,
    ))
        requires
            old(self).wf(),
            p < old(self).partitions,
        ensures
            final(self).wf(),
            final(self).partitions == old(self).partitions,
            final(self).vertex_batch_size == old(self).vertex_batch_size,
            final(self).edge_batch_size == old(self).edge_batch_size,
            crate::wire::view_pair_list(r.0@) == view_vertex_buckets(old(self).v_bufs@)[p as int],
            crate::wire::view_triple_list(r.1@) == view_edge_buckets(old(self).e_bufs@)[p as int],
            view_vertex_buckets(final(self).v_bufs@) =~= view_vertex_buckets(
                old(self).v_bufs@,
            ).update(p as int, Seq::empty()),
            view_edge_buckets(final(self).e_bufs@) =~= view_edge_buckets(
                old(self).e_bufs@,
            ).update(p as int, Seq::empty()),
    {
        let ghost pre_v = view_vertex_buckets(self.v_bufs@);
        let ghost pre_e = view_edge_buckets(self.e_bufs@);
        let mut v_out: Vec<(Vec<u8>, Vec<u8>)> = Vec::new();
        let mut e_out: Vec<(Vec<u8>, Vec<u8>, Vec<u8>)> = Vec::new();
        let vb = vstd::std_specs::vec::vec_index_mut(&mut self.v_bufs, p);
        core::mem::swap(&mut v_out, vb);
        let eb = vstd::std_specs::vec::vec_index_mut(&mut self.e_bufs, p);
        core::mem::swap(&mut e_out, eb);
        proof {
            assert(crate::wire::view_pair_list(v_out@) =~= pre_v[p as int]);
            assert(crate::wire::view_triple_list(e_out@) =~= pre_e[p as int]);
            assert(view_vertex_buckets(self.v_bufs@) =~~= pre_v.update(
                p as int,
                Seq::empty(),
            ));
            assert(view_edge_buckets(self.e_bufs@) =~~= pre_e.update(p as int, Seq::empty()));
        }
        (v_out, e_out)
    }
}

} // verus!
