//! The per-vertex algorithm interface of the distributed runtime, and the
//! bundled weakly-connected-components algorithm.
//!
//! Vertex ids, values and message payloads cross the engine as bytes; the
//! bundled algorithms use 64-bit little-endian integers for all three.

use vstd::prelude::*;
use vstd::bytes::{spec_u64_to_le_bytes, spec_u64_from_le_bytes, u64_to_le_bytes, u64_from_le_bytes,
    lemma_auto_spec_u64_to_from_le_bytes};
use crate::error::{GeaFlowError, GeaFlowResult};

verus! {

/// What one vertex computation returns: the replacement value, if any, and
/// the outgoing messages.
pub type ComputeOutput = (Option<Vec<u8>>, Vec<(Vec<u8>, Vec<u8>)>);

pub type ComputeResult = GeaFlowResult<ComputeOutput>;

/// A per-vertex stateful computation, instantiated once per worker per job.
///
/// `compute_vertex` is called once per local vertex per superstep:
/// `vertex_value` is the stored value or absent on first visit, `out_edges`
/// the full local adjacency as (target, value) pairs, `messages` the ordered
/// inbox of the vertex for this iteration, and `iteration` is 1-based and
/// monotonically increasing per call. Implementations are plain CPU work on
/// the given arguments; the engine promises nothing of what they return.
pub trait DistributedAlgorithm {
    fn name(&self) -> String;

    fn iterations(&self) -> u64;

    fn compute_vertex(
        &mut self,
        vertex_id: &Vec<u8>,
        vertex_value: Option<&Vec<u8>>,
        out_edges: &Vec<(Vec<u8>, Vec<u8>)>,
        messages: &Vec<Vec<u8>>,
        iteration: u64,
    ) -> ComputeResult;
}

/// A 64-bit value read from exactly eight little-endian bytes.
pub open spec fn dec64(b: Seq<u8>) -> Option<u64> {
    if b.len() == 8 {
        Some(spec_u64_from_le_bytes(b))
    } else {
        None
    }
}

/// Encode a 64-bit value as its eight little-endian bytes.
pub fn enc_u64(v: u64) -> (r: Vec<u8>)
    ensures
        r@ == spec_u64_to_le_bytes(v),
        dec64(r@) == Some(v),
{
    proof {
        lemma_auto_spec_u64_to_from_le_bytes();
    }
    u64_to_le_bytes(v)
}

/// Decode a 64-bit value from exactly eight little-endian bytes.
pub fn dec_u64(b: &Vec<u8>) -> (r: Option<u64>)
    ensures
        r == dec64(b@),
{
    if b.len() == 8 {
        Some(u64_from_le_bytes(b.as_slice()))
    } else {
        None
    }
}

/// The minimum of a starting value and a sequence of decoded messages.
pub open spec fn spec_min_msgs(cur: u64, msgs: Seq<u64>) -> u64
    decreases msgs.len(),
{
    if msgs.len() == 0 {
        cur
    } else {
        let rest = spec_min_msgs(cur, msgs.drop_last());
        if msgs.last() < rest {
            msgs.last()
        } else {
            rest
        }
    }
}

/// The decoded messages of an inbox, when every payload is eight bytes.
pub open spec fn spec_dec_msgs(msgs: Seq<Seq<u8>>) -> Option<Seq<u64>>
    decreases msgs.len(),
{
    if msgs.len() == 0 {
        Some(Seq::empty())
    } else {
        match (spec_dec_msgs(msgs.drop_last()), dec64(msgs.last())) {
            (Some(rest), Some(v)) => Some(rest.push(v)),
            _ => None,
        }
    }
}

/// Whether the byte-level inputs of a WCC step decode: the id and the
/// stored value must be eight bytes each, and so must every message — but
/// only past the seed iteration, whose inbox is never consulted.
pub open spec fn wcc_inputs_ok(
    id: Seq<u8>,
    value: Option<Seq<u8>>,
    msgs: Seq<Seq<u8>>,
    iteration: u64,
) -> bool {
    &&& dec64(id) is Some
    &&& (value matches Some(v) ==> dec64(v) is Some)
    &&& (iteration != 1 ==> spec_dec_msgs(msgs) is Some)
}

/// One message per out-edge target, all carrying the same payload.
pub open spec fn spec_fanout(out_edges: Seq<(Seq<u8>, Seq<u8>)>, payload: Seq<u8>) -> Seq<
    (Seq<u8>, Seq<u8>),
> {
    out_edges.map_values(|e: (Seq<u8>, Seq<u8>)| (e.0, payload))
}

/// What one WCC step returns, over the decoded inputs: on the first
/// iteration the vertex takes its own id as component and announces it along
/// its out-edges; afterwards it adopts the minimum of its component and the
/// incoming ones, announcing only a strict improvement.
pub open spec fn spec_wcc_step(
    vid: u64,
    value: Option<u64>,
    out_edges: Seq<(Seq<u8>, Seq<u8>)>,
    msgs: Seq<u64>,
    iteration: u64,
) -> (Option<Seq<u8>>, Seq<(Seq<u8>, Seq<u8>)>) {
    if iteration == 1 {
        (
            Some(spec_u64_to_le_bytes(vid)),
            spec_fanout(out_edges, spec_u64_to_le_bytes(vid)),
        )
    } else {
        let cur = if value is Some {
            value->Some_0
        } else {
            vid
        };
        let m = spec_min_msgs(cur, msgs);
        if m < cur {
            (Some(spec_u64_to_le_bytes(m)), spec_fanout(out_edges, spec_u64_to_le_bytes(m)))
        } else {
            (None, Seq::empty())
        }
    }
}

/// The weakly-connected-components algorithm: every vertex converges to the
/// minimum 64-bit id reachable from it over undirected edges.
#[derive(Debug, Clone)]
pub struct WccAlgorithm {
    pub iterations: u64,
}

impl WccAlgorithm {
    pub fn new(iterations: u64) -> (r: Self)
        ensures
            r.iterations == iterations,
    {
        Self { iterations }
    }

    /// One WCC vertex step on byte-level inputs. Succeeds exactly when the
    /// id and the stored value are eight bytes each — and, past the seed
    /// iteration, every message too — and then returns precisely
    /// `spec_wcc_step` of the decoded inputs. The seed iteration never
    /// consults its messages.
    pub fn compute_wcc(
        &self,
        vertex_id: &Vec<u8>,
        vertex_value: Option<&Vec<u8>>,
        out_edges: &Vec<(Vec<u8>, Vec<u8>)>,
        messages: &Vec<Vec<u8>>,
        iteration: u64,
    ) -> (r: ComputeResult)
        ensures
            r is Ok <==> wcc_inputs_ok(
                vertex_id@,
                match vertex_value {
                    Some(v) => Some(v@),
                    None => None,
                },
                crate::wire::view_byte_list(messages@),
                iteration,
            ),
            r matches Ok((new_value, outbox)) ==> {
                let dec_value = match vertex_value {
                    Some(v) => Some(dec64(v@)->Some_0),
                    None => None,
                };
                let expect = spec_wcc_step(
                    dec64(vertex_id@)->Some_0,
                    dec_value,
                    crate::wire::view_pair_list(out_edges@),
                    if iteration == 1 {
                        Seq::empty()
                    } else {
                        spec_dec_msgs(crate::wire::view_byte_list(messages@))->Some_0
                    },
                    iteration,
                );
                &&& (match new_value {
                    Some(nv) => expect.0 == Some(nv@),
                    None => expect.0 is None,
                })
                &&& crate::wire::view_pair_list(outbox@) == expect.1
            },
            r matches Err(e) ==> !e.is_invalid_argument(),
    {
        let vid = match dec_u64(vertex_id) {
            Some(v) => v,
            None => {
                return Err(GeaFlowError::Internal(decode_error_message()));
            },
        };
        let stored = match vertex_value {
            Some(v) => match dec_u64(v) {
                Some(x) => Some(x),
                None => {
                    return Err(GeaFlowError::Internal(decode_error_message()));
                },
            },
            None => None,
        };
        if iteration == 1 {
            let payload = enc_u64(vid);
            let out = fanout(out_edges, &payload);
            return Ok((Some(payload), out));
        }
        let msgs = match decode_messages(messages) {
            Some(m) => m,
            None => {
                return Err(GeaFlowError::Internal(decode_error_message()));
            },
        };
        let cur = match stored {
            Some(x) => x,
            None => vid,
        };
        let mut m = cur;
        let n = msgs.len();
        let mut i: usize = 0;
        while i < n
            invariant
                i <= n,
                n == msgs@.len(),
                m == spec_min_msgs(cur, msgs@.take(i as int)),
            decreases n - i,
        {
            let v = msgs[i];
            proof {
                assert(msgs@.take(i + 1).drop_last() =~= msgs@.take(i as int));
                assert(msgs@.take(i + 1).last() == msgs@[i as int]);
            }
            if v < m {
                m = v;
            }
            i += 1;
        }
        proof {
            assert(msgs@.take(n as int) =~= msgs@);
        }
        if m < cur {
            let payload = enc_u64(m);
            let out = fanout(out_edges, &payload);
            Ok((Some(payload), out))
        } else {
            let r: Vec<(Vec<u8>, Vec<u8>)> = Vec::new();
            proof {
                assert(crate::wire::view_pair_list(r@) =~= Seq::<(Seq<u8>, Seq<u8>)>::empty());
            }
            Ok((None, r))
        }
    }
}

/// The message carried by a decode failure.
fn decode_error_message() -> (r: String)
    ensures
        r@ == "value decode failed: expected 8 bytes"@,
{
    let s = <String as vstd::string::StringExecFns>::from_str("value decode failed: expected 8 bytes");
    s
}

/// Decode every message payload as a 64-bit value, or fail on the first
/// payload that is not eight bytes.
fn decode_messages(messages: &Vec<Vec<u8>>) -> (r: Option<Vec<u64>>)
    ensures
        match r {
            Some(v) => spec_dec_msgs(crate::wire::view_byte_list(messages@)) == Some(v@),
            None => spec_dec_msgs(crate::wire::view_byte_list(messages@)) is None,
        },
{
    let ghost mv = crate::wire::view_byte_list(messages@);
    let n = messages.len();
    let mut out: Vec<u64> = Vec::new();
    let mut i: usize = 0;
    while i < n
        invariant
            i <= n,
            n == mv.len(),
            mv == crate::wire::view_byte_list(messages@),
            spec_dec_msgs(mv.take(i as int)) == Some(out@),
        decreases n - i,
    {
        proof {
            assert(mv.take(i + 1).drop_last() =~= mv.take(i as int));
            assert(mv.take(i + 1).last() == mv[i as int]);
        }
        match dec_u64(&messages[i]) {
            Some(v) => {
                out.push(v);
            },
            None => {
                proof {
                    lemma_dec_msgs_prefix_none(mv, i as int);
                }
                return None;
            },
        }
        i += 1;
    }
    proof {
        assert(mv.take(n as int) =~= mv);
    }
    Some(out)
}

/// When one payload fails to decode, the whole inbox fails.
proof fn lemma_dec_msgs_prefix_none(msgs: Seq<Seq<u8>>, i: int)
    requires
        0 <= i < msgs.len(),
        dec64(msgs[i]) is None,
    ensures
        spec_dec_msgs(msgs.take(msgs.len() as int)) is None,
        spec_dec_msgs(msgs) is None,
    decreases msgs.len(),
{
    assert(msgs.take(msgs.len() as int) =~= msgs);
    if msgs.len() > 0 {
        if i == msgs.len() - 1 {
            assert(msgs.last() == msgs[i]);
        } else {
            assert(msgs.drop_last()[i] == msgs[i]);
            lemma_dec_msgs_prefix_none(msgs.drop_last(), i);
        }
    }
}

/// One message per out-edge target, all carrying `payload`.
fn fanout(out_edges: &Vec<(Vec<u8>, Vec<u8>)>, payload: &Vec<u8>) -> (r: Vec<(Vec<u8>, Vec<u8>)>)
    ensures
        crate::wire::view_pair_list(r@) == spec_fanout(
            crate::wire::view_pair_list(out_edges@),
            payload@,
        ),
{
    let n = out_edges.len();
    let mut r: Vec<(Vec<u8>, Vec<u8>)> = Vec::new();
    let mut i: usize = 0;
    while i < n
        invariant
            i <= n,
            n == out_edges@.len(),
            r@.len() == i,
            forall|j: int|
                0 <= j < i ==> #[trigger] crate::wire::view_pair_list(r@)[j] == (
                    out_edges@[j].0@,
                    payload@,
                ),
        decreases n - i,
    {
        let t = crate::state::clone_bytes(&out_edges[i].0);
        let p = crate::state::clone_bytes(payload);
        let ghost pre = r@;
        r.push((t, p));
        proof {
            assert(crate::wire::view_pair_list(r@) =~= crate::wire::view_pair_list(pre).push(
                (out_edges@[i as int].0@, payload@),
            ));
        }
        i += 1;
    }
    proof {
        assert(crate::wire::view_pair_list(r@) =~= spec_fanout(
            crate::wire::view_pair_list(out_edges@),
            payload@,
        ));
    }
    r
}

impl DistributedAlgorithm for WccAlgorithm {
    fn name(&self) -> String {
        <String as vstd::string::StringExecFns>::from_str("wcc")
    }

    fn iterations(&self) -> u64 {
        self.iterations
    }

    fn compute_vertex(
        &mut self,
        vertex_id: &Vec<u8>,
        vertex_value: Option<&Vec<u8>>,
        out_edges: &Vec<(Vec<u8>, Vec<u8>)>,
        messages: &Vec<Vec<u8>>,
        iteration: u64,
    ) -> ComputeResult {
        self.compute_wcc(vertex_id, vertex_value, out_edges, messages, iteration)
    }
}

} // verus!
