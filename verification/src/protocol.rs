//! The wire protocol: tagged-union messages between client, driver, worker
//! and master, with a verified binary codec for each direction.
//!
//! Each message enum has a view type giving its mathematical shape, a spec
//! encoder and parser over byte sequences, exec encode and decode functions
//! proved to mirror them, and a round-trip law: decoding an encoding yields
//! the original message.

use vstd::prelude::*;
use vstd::bytes::*;
use crate::wire::{
    spec_lp_bytes, spec_lp_string, spec_enc_bool, spec_take_u8, spec_take_bool, spec_take_u64,
    spec_take_bytes, spec_take_string, spec_take_list, spec_enc_list, pair_enc, pair_parser,
    triple_enc, triple_parser, entry_enc, entry_parser, string_enc, string_parser, bytes_enc,
    bytes_parser, view_pair_list, view_triple_list, view_entry_list, view_string_list,
    view_byte_list, put_u8, put_bool, put_u64, put_bytes, put_string, put_pair_list,
    put_triple_list, put_entry_list, put_string_list, put_byte_list, take_u8, take_bool, take_u64,
    take_bytes, take_string, take_pair_list, take_triple_list, take_entry_list, take_string_list,
    take_byte_list, wf_bytes_elem, wf_string_elem, wf_pair_list, wf_triple_list, wf_entry_list,
    wf_string_list, wf_byte_list, lemma_take_u8, lemma_take_bool, lemma_take_u64,
    lemma_take_bytes, lemma_take_string, lemma_take_pair_list_rt, lemma_take_triple_list_rt,
    lemma_take_entry_list_rt, lemma_take_string_list_rt, lemma_take_byte_list_rt,
};

verus! {

/// A request from the driver to a worker.
#[derive(Debug, Clone)]
pub enum DriverToWorker {
    LoadGraph { vertices: Vec<(Vec<u8>, Vec<u8>)>, edges: Vec<(Vec<u8>, Vec<u8>, Vec<u8>)> },
    LoadGraphBatch { vertices: Vec<(Vec<u8>, Vec<u8>)>, edges: Vec<(Vec<u8>, Vec<u8>, Vec<u8>)>, last: bool },
    SetAlgorithm { name: String, iterations: u64, params: Vec<u8> },
    Superstep { iteration: u64, inbox: Vec<(Vec<u8>, Vec<Vec<u8>>)> },
    SuperstepBatch { iteration: u64, inbox: Vec<(Vec<u8>, Vec<Vec<u8>>)>, last: bool },
    CreateCheckpoint { checkpoint_dir: String },
    LoadCheckpoint { checkpoint_dir: String },
    FetchVertices,
    DumpVerticesCsv { output_path: String },
    Shutdown,
}

/// The mathematical shape of a `DriverToWorker` message.
pub enum DriverToWorkerView {
    LoadGraph { vertices: Seq<(Seq<u8>, Seq<u8>)>, edges: Seq<(Seq<u8>, Seq<u8>, Seq<u8>)> },
    LoadGraphBatch { vertices: Seq<(Seq<u8>, Seq<u8>)>, edges: Seq<(Seq<u8>, Seq<u8>, Seq<u8>)>, last: bool },
    SetAlgorithm { name: Seq<char>, iterations: u64, params: Seq<u8> },
    Superstep { iteration: u64, inbox: Seq<(Seq<u8>, Seq<Seq<u8>>)> },
    SuperstepBatch { iteration: u64, inbox: Seq<(Seq<u8>, Seq<Seq<u8>>)>, last: bool },
    CreateCheckpoint { checkpoint_dir: Seq<char> },
    LoadCheckpoint { checkpoint_dir: Seq<char> },
    FetchVertices,
    DumpVerticesCsv { output_path: Seq<char> },
    Shutdown,
}

impl View for DriverToWorker {
    type V = DriverToWorkerView;

    open spec fn view(&self) -> DriverToWorkerView {
        match self {
            DriverToWorker::LoadGraph { vertices, edges } => DriverToWorkerView::LoadGraph { vertices: view_pair_list(vertices@), edges: view_triple_list(edges@) },
            DriverToWorker::LoadGraphBatch { vertices, edges, last } => DriverToWorkerView::LoadGraphBatch { vertices: view_pair_list(vertices@), edges: view_triple_list(edges@), last: *last },
            DriverToWorker::SetAlgorithm { name, iterations, params } => DriverToWorkerView::SetAlgorithm { name: name@, iterations: *iterations, params: params@ },
            DriverToWorker::Superstep { iteration, inbox } => DriverToWorkerView::Superstep { iteration: *iteration, inbox: view_entry_list(inbox@) },
            DriverToWorker::SuperstepBatch { iteration, inbox, last } => DriverToWorkerView::SuperstepBatch { iteration: *iteration, inbox: view_entry_list(inbox@), last: *last },
            DriverToWorker::CreateCheckpoint { checkpoint_dir } => DriverToWorkerView::CreateCheckpoint { checkpoint_dir: checkpoint_dir@ },
            DriverToWorker::LoadCheckpoint { checkpoint_dir } => DriverToWorkerView::LoadCheckpoint { checkpoint_dir: checkpoint_dir@ },
            DriverToWorker::FetchVertices => DriverToWorkerView::FetchVertices,
            DriverToWorker::DumpVerticesCsv { output_path } => DriverToWorkerView::DumpVerticesCsv { output_path: output_path@ },
            DriverToWorker::Shutdown => DriverToWorkerView::Shutdown,
        }
    }
}

/// Every length in the message fits its 64-bit length prefix. Any message
/// built from in-memory vectors satisfies this.
pub open spec fn wf_d2w(v: DriverToWorkerView) -> bool {
    match v {
        DriverToWorkerView::LoadGraph { vertices, edges } => wf_pair_list(vertices) && wf_triple_list(edges),
        DriverToWorkerView::LoadGraphBatch { vertices, edges, last } => wf_pair_list(vertices) && wf_triple_list(edges),
        DriverToWorkerView::SetAlgorithm { name, iterations, params } => wf_string_elem(name) && wf_bytes_elem(params),
        DriverToWorkerView::Superstep { iteration, inbox } => wf_entry_list(inbox),
        DriverToWorkerView::SuperstepBatch { iteration, inbox, last } => wf_entry_list(inbox),
        DriverToWorkerView::CreateCheckpoint { checkpoint_dir } => wf_string_elem(checkpoint_dir),
        DriverToWorkerView::LoadCheckpoint { checkpoint_dir } => wf_string_elem(checkpoint_dir),
        DriverToWorkerView::FetchVertices => true,
        DriverToWorkerView::DumpVerticesCsv { output_path } => wf_string_elem(output_path),
        DriverToWorkerView::Shutdown => true,
    }
}

/// The byte encoding of a `DriverToWorker` message: a tag byte, then the fields.
pub open spec fn spec_enc_d2w(v: DriverToWorkerView) -> Seq<u8> {
    match v {
        DriverToWorkerView::LoadGraph { vertices, edges } => seq![1u8] + spec_enc_list(vertices, pair_enc()) + spec_enc_list(edges, triple_enc()),
        DriverToWorkerView::LoadGraphBatch { vertices, edges, last } => seq![2u8] + spec_enc_list(vertices, pair_enc()) + spec_enc_list(edges, triple_enc()) + spec_enc_bool(last),
        DriverToWorkerView::SetAlgorithm { name, iterations, params } => seq![3u8] + spec_lp_string(name) + spec_u64_to_le_bytes(iterations) + spec_lp_bytes(params),
        DriverToWorkerView::Superstep { iteration, inbox } => seq![4u8] + spec_u64_to_le_bytes(iteration) + spec_enc_list(inbox, entry_enc()),
        DriverToWorkerView::SuperstepBatch { iteration, inbox, last } => seq![5u8] + spec_u64_to_le_bytes(iteration) + spec_enc_list(inbox, entry_enc()) + spec_enc_bool(last),
        DriverToWorkerView::CreateCheckpoint { checkpoint_dir } => seq![6u8] + spec_lp_string(checkpoint_dir),
        DriverToWorkerView::LoadCheckpoint { checkpoint_dir } => seq![7u8] + spec_lp_string(checkpoint_dir),
        DriverToWorkerView::FetchVertices => seq![8u8],
        DriverToWorkerView::DumpVerticesCsv { output_path } => seq![9u8] + spec_lp_string(output_path),
        DriverToWorkerView::Shutdown => seq![10u8],
    }
}

/// Parse a whole buffer as a `DriverToWorker` message; trailing bytes are refused.
pub open spec fn spec_dec_d2w(b: Seq<u8>) -> Option<DriverToWorkerView> {
    match spec_take_u8(b, 0) {
        None => None,
        Some((tag, p0)) => {
            if tag == 1 {
                match spec_take_list(b, p0, pair_parser()) {
                    None => None,
                    Some((vertices, p1)) => {
                        match spec_take_list(b, p1, triple_parser()) {
                            None => None,
                            Some((edges, p2)) => {
                                if p2 == b.len() {
                                    Some(DriverToWorkerView::LoadGraph { vertices, edges })
                                } else {
                                    None
                                }
                            },
                        }
                    },
                }
            } else if tag == 2 {
                match spec_take_list(b, p0, pair_parser()) {
                    None => None,
                    Some((vertices, p1)) => {
                        match spec_take_list(b, p1, triple_parser()) {
                            None => None,
                            Some((edges, p2)) => {
                                match spec_take_bool(b, p2) {
                                    None => None,
                                    Some((last, p3)) => {
                                        if p3 == b.len() {
                                            Some(DriverToWorkerView::LoadGraphBatch { vertices, edges, last })
                                        } else {
                                            None
                                        }
                                    },
                                }
                            },
                        }
                    },
                }
            } else if tag == 3 {
                match spec_take_string(b, p0) {
                    None => None,
                    Some((name, p1)) => {
                        match spec_take_u64(b, p1) {
                            None => None,
                            Some((iterations, p2)) => {
                                match spec_take_bytes(b, p2) {
                                    None => None,
                                    Some((params, p3)) => {
                                        if p3 == b.len() {
                                            Some(DriverToWorkerView::SetAlgorithm { name, iterations, params })
                                        } else {
                                            None
                                        }
                                    },
                                }
                            },
                        }
                    },
                }
            } else if tag == 4 {
                match spec_take_u64(b, p0) {
                    None => None,
                    Some((iteration, p1)) => {
                        match spec_take_list(b, p1, entry_parser()) {
                            None => None,
                            Some((inbox, p2)) => {
                                if p2 == b.len() {
                                    Some(DriverToWorkerView::Superstep { iteration, inbox })
                                } else {
                                    None
                                }
                            },
                        }
                    },
                }
            } else if tag == 5 {
                match spec_take_u64(b, p0) {
                    None => None,
                    Some((iteration, p1)) => {
                        match spec_take_list(b, p1, entry_parser()) {
                            None => None,
                            Some((inbox, p2)) => {
                                match spec_take_bool(b, p2) {
                                    None => None,
                                    Some((last, p3)) => {
                                        if p3 == b.len() {
                                            Some(DriverToWorkerView::SuperstepBatch { iteration, inbox, last })
                                        } else {
                                            None
                                        }
                                    },
                                }
                            },
                        }
                    },
                }
            } else if tag == 6 {
                match spec_take_string(b, p0) {
                    None => None,
                    Some((checkpoint_dir, p1)) => {
                        if p1 == b.len() {
                            Some(DriverToWorkerView::CreateCheckpoint { checkpoint_dir })
                        } else {
                            None
                        }
                    },
                }
            } else if tag == 7 {
                match spec_take_string(b, p0) {
                    None => None,
                    Some((checkpoint_dir, p1)) => {
                        if p1 == b.len() {
                            Some(DriverToWorkerView::LoadCheckpoint { checkpoint_dir })
                        } else {
                            None
                        }
                    },
                }
            } else if tag == 8 {
                if p0 == b.len() {
                    Some(DriverToWorkerView::FetchVertices)
                } else {
                    None
                }
            } else if tag == 9 {
                match spec_take_string(b, p0) {
                    None => None,
                    Some((output_path, p1)) => {
                        if p1 == b.len() {
                            Some(DriverToWorkerView::DumpVerticesCsv { output_path })
                        } else {
                            None
                        }
                    },
                }
            } else if tag == 10 {
                if p0 == b.len() {
                    Some(DriverToWorkerView::Shutdown)
                } else {
                    None
                }
            } else {
                None
            }
        },
    }
}

/// Encode a `DriverToWorker` message to bytes.
pub fn encode_d2w(m: &DriverToWorker) -> (r: Vec<u8>)
    ensures
        r@ == spec_enc_d2w(m@),
{
    let mut out: Vec<u8> = Vec::new();
    match m {
        DriverToWorker::LoadGraph { vertices, edges } => {
            put_u8(&mut out, 1);
            put_pair_list(&mut out, vertices);
            put_triple_list(&mut out, edges);
            assert(out@ =~= spec_enc_d2w(m@));
        },
        DriverToWorker::LoadGraphBatch { vertices, edges, last } => {
            put_u8(&mut out, 2);
            put_pair_list(&mut out, vertices);
            put_triple_list(&mut out, edges);
            put_bool(&mut out, *last);
            assert(out@ =~= spec_enc_d2w(m@));
        },
        DriverToWorker::SetAlgorithm { name, iterations, params } => {
            put_u8(&mut out, 3);
            put_string(&mut out, name);
            put_u64(&mut out, *iterations);
            put_bytes(&mut out, params);
            assert(out@ =~= spec_enc_d2w(m@));
        },
        DriverToWorker::Superstep { iteration, inbox } => {
            put_u8(&mut out, 4);
            put_u64(&mut out, *iteration);
            put_entry_list(&mut out, inbox);
            assert(out@ =~= spec_enc_d2w(m@));
        },
        DriverToWorker::SuperstepBatch { iteration, inbox, last } => {
            put_u8(&mut out, 5);
            put_u64(&mut out, *iteration);
            put_entry_list(&mut out, inbox);
            put_bool(&mut out, *last);
            assert(out@ =~= spec_enc_d2w(m@));
        },
        DriverToWorker::CreateCheckpoint { checkpoint_dir } => {
            put_u8(&mut out, 6);
            put_string(&mut out, checkpoint_dir);
            assert(out@ =~= spec_enc_d2w(m@));
        },
        DriverToWorker::LoadCheckpoint { checkpoint_dir } => {
            put_u8(&mut out, 7);
            put_string(&mut out, checkpoint_dir);
            assert(out@ =~= spec_enc_d2w(m@));
        },
        DriverToWorker::FetchVertices => {
            put_u8(&mut out, 8);
            assert(out@ =~= spec_enc_d2w(m@));
        },
        DriverToWorker::DumpVerticesCsv { output_path } => {
            put_u8(&mut out, 9);
            put_string(&mut out, output_path);
            assert(out@ =~= spec_enc_d2w(m@));
        },
        DriverToWorker::Shutdown => {
            put_u8(&mut out, 10);
            assert(out@ =~= spec_enc_d2w(m@));
        },
    }
    out
}

/// Decode a `DriverToWorker` message from a whole buffer.
pub fn decode_d2w(b: &Vec<u8>) -> (r: Option<DriverToWorker>)
    ensures
        match r {
            Some(m) => spec_dec_d2w(b@) == Some(m@),
            None => spec_dec_d2w(b@) is None,
        },
{
    match take_u8(b, 0) {
        None => None,
        Some((tag, p0)) => {
            if tag == 1 {
                match take_pair_list(b, p0) {
                    None => None,
                    Some((vertices, p1)) => {
                        match take_triple_list(b, p1) {
                            None => None,
                            Some((edges, p2)) => {
                                if p2 == b.len() {
                                    Some(DriverToWorker::LoadGraph { vertices, edges })
                                } else {
                                    None
                                }
                            },
                        }
                    },
                }
            } else if tag == 2 {
                match take_pair_list(b, p0) {
                    None => None,
                    Some((vertices, p1)) => {
                        match take_triple_list(b, p1) {
                            None => None,
                            Some((edges, p2)) => {
                                match take_bool(b, p2) {
                                    None => None,
                                    Some((last, p3)) => {
                                        if p3 == b.len() {
                                            Some(DriverToWorker::LoadGraphBatch { vertices, edges, last })
                                        } else {
                                            None
                                        }
                                    },
                                }
                            },
                        }
                    },
                }
            } else if tag == 3 {
                match take_string(b, p0) {
                    None => None,
                    Some((name, p1)) => {
                        match take_u64(b, p1) {
                            None => None,
                            Some((iterations, p2)) => {
                                match take_bytes(b, p2) {
                                    None => None,
                                    Some((params, p3)) => {
                                        if p3 == b.len() {
                                            Some(DriverToWorker::SetAlgorithm { name, iterations, params })
                                        } else {
                                            None
                                        }
                                    },
                                }
                            },
                        }
                    },
                }
            } else if tag == 4 {
                match take_u64(b, p0) {
                    None => None,
                    Some((iteration, p1)) => {
                        match take_entry_list(b, p1) {
                            None => None,
                            Some((inbox, p2)) => {
                                if p2 == b.len() {
                                    Some(DriverToWorker::Superstep { iteration, inbox })
                                } else {
                                    None
                                }
                            },
                        }
                    },
                }
            } else if tag == 5 {
                match take_u64(b, p0) {
                    None => None,
                    Some((iteration, p1)) => {
                        match take_entry_list(b, p1) {
                            None => None,
                            Some((inbox, p2)) => {
                                match take_bool(b, p2) {
                                    None => None,
                                    Some((last, p3)) => {
                                        if p3 == b.len() {
                                            Some(DriverToWorker::SuperstepBatch { iteration, inbox, last })
                                        } else {
                                            None
                                        }
                                    },
                                }
                            },
                        }
                    },
                }
            } else if tag == 6 {
                match take_string(b, p0) {
                    None => None,
                    Some((checkpoint_dir, p1)) => {
                        if p1 == b.len() {
                            Some(DriverToWorker::CreateCheckpoint { checkpoint_dir })
                        } else {
                            None
                        }
                    },
                }
            } else if tag == 7 {
                match take_string(b, p0) {
                    None => None,
                    Some((checkpoint_dir, p1)) => {
                        if p1 == b.len() {
                            Some(DriverToWorker::LoadCheckpoint { checkpoint_dir })
                        } else {
                            None
                        }
                    },
                }
            } else if tag == 8 {
                if p0 == b.len() {
                    Some(DriverToWorker::FetchVertices)
                } else {
                    None
                }
            } else if tag == 9 {
                match take_string(b, p0) {
                    None => None,
                    Some((output_path, p1)) => {
                        if p1 == b.len() {
                            Some(DriverToWorker::DumpVerticesCsv { output_path })
                        } else {
                            None
                        }
                    },
                }
            } else if tag == 10 {
                if p0 == b.len() {
                    Some(DriverToWorker::Shutdown)
                } else {
                    None
                }
            } else {
                None
            }
        },
    }
}

/// The codec inverts itself: decoding an encoded `DriverToWorker` message gives
/// the message back.
pub proof fn lemma_roundtrip_d2w(v: DriverToWorkerView)
    requires
        wf_d2w(v),
    ensures
        spec_dec_d2w(spec_enc_d2w(v)) == Some(v),
{
    let b = spec_enc_d2w(v);
    lemma_auto_spec_u64_to_from_le_bytes();
    match v {
        DriverToWorkerView::LoadGraph { vertices, edges } => {
            let e0 = spec_enc_list(vertices, pair_enc());
            let e1 = spec_enc_list(edges, triple_enc());
            assert(b == seq![1u8] + e0 + e1);
            assert(b.subrange(0, 1) =~= seq![1u8]);
            lemma_take_u8(b, 0, 1u8);
            let q0: int = 1;
            assert(b.subrange(q0, q0 + e0.len() as int) =~= e0) by {
                assert forall|j: int| 0 <= j < e0.len() implies b[q0 + j] == e0[j] by {}
            }
            lemma_take_pair_list_rt(b, q0, vertices);
            let q1: int = q0 + e0.len();
            assert(b.subrange(q1, q1 + e1.len() as int) =~= e1) by {
                assert forall|j: int| 0 <= j < e1.len() implies b[q1 + j] == e1[j] by {}
            }
            lemma_take_triple_list_rt(b, q1, edges);
            assert(spec_dec_d2w(b) == Some(v));
        },
        DriverToWorkerView::LoadGraphBatch { vertices, edges, last } => {
            let e0 = spec_enc_list(vertices, pair_enc());
            let e1 = spec_enc_list(edges, triple_enc());
            let e2 = spec_enc_bool(last);
            assert(b == seq![2u8] + e0 + e1 + e2);
            assert(b.subrange(0, 1) =~= seq![2u8]);
            lemma_take_u8(b, 0, 2u8);
            let q0: int = 1;
            assert(b.subrange(q0, q0 + e0.len() as int) =~= e0) by {
                assert forall|j: int| 0 <= j < e0.len() implies b[q0 + j] == e0[j] by {}
            }
            lemma_take_pair_list_rt(b, q0, vertices);
            let q1: int = q0 + e0.len();
            assert(b.subrange(q1, q1 + e1.len() as int) =~= e1) by {
                assert forall|j: int| 0 <= j < e1.len() implies b[q1 + j] == e1[j] by {}
            }
            lemma_take_triple_list_rt(b, q1, edges);
            let q2: int = q1 + e1.len();
            assert(b.subrange(q2, q2 + e2.len() as int) =~= e2) by {
                assert forall|j: int| 0 <= j < e2.len() implies b[q2 + j] == e2[j] by {}
            }
            lemma_take_bool(b, q2, last);
            assert(spec_dec_d2w(b) == Some(v));
        },
        DriverToWorkerView::SetAlgorithm { name, iterations, params } => {
            let e0 = spec_lp_string(name);
            let e1 = spec_u64_to_le_bytes(iterations);
            let e2 = spec_lp_bytes(params);
            assert(b == seq![3u8] + e0 + e1 + e2);
            assert(b.subrange(0, 1) =~= seq![3u8]);
            lemma_take_u8(b, 0, 3u8);
            let q0: int = 1;
            assert(b.subrange(q0, q0 + e0.len() as int) =~= e0) by {
                assert forall|j: int| 0 <= j < e0.len() implies b[q0 + j] == e0[j] by {}
            }
            lemma_take_string(b, q0, name);
            let q1: int = q0 + e0.len();
            assert(b.subrange(q1, q1 + e1.len() as int) =~= e1) by {
                assert forall|j: int| 0 <= j < e1.len() implies b[q1 + j] == e1[j] by {}
            }
            lemma_take_u64(b, q1, iterations);
            let q2: int = q1 + e1.len();
            assert(b.subrange(q2, q2 + e2.len() as int) =~= e2) by {
                assert forall|j: int| 0 <= j < e2.len() implies b[q2 + j] == e2[j] by {}
            }
            lemma_take_bytes(b, q2, params);
            assert(spec_dec_d2w(b) == Some(v));
        },
        DriverToWorkerView::Superstep { iteration, inbox } => {
            let e0 = spec_u64_to_le_bytes(iteration);
            let e1 = spec_enc_list(inbox, entry_enc());
            assert(b == seq![4u8] + e0 + e1);
            assert(b.subrange(0, 1) =~= seq![4u8]);
            lemma_take_u8(b, 0, 4u8);
            let q0: int = 1;
            assert(b.subrange(q0, q0 + e0.len() as int) =~= e0) by {
                assert forall|j: int| 0 <= j < e0.len() implies b[q0 + j] == e0[j] by {}
            }
            lemma_take_u64(b, q0, iteration);
            let q1: int = q0 + e0.len();
            assert(b.subrange(q1, q1 + e1.len() as int) =~= e1) by {
                assert forall|j: int| 0 <= j < e1.len() implies b[q1 + j] == e1[j] by {}
            }
            lemma_take_entry_list_rt(b, q1, inbox);
            assert(spec_dec_d2w(b) == Some(v));
        },
        DriverToWorkerView::SuperstepBatch { iteration, inbox, last } => {
            let e0 = spec_u64_to_le_bytes(iteration);
            let e1 = spec_enc_list(inbox, entry_enc());
            let e2 = spec_enc_bool(last);
            assert(b == seq![5u8] + e0 + e1 + e2);
            assert(b.subrange(0, 1) =~= seq![5u8]);
            lemma_take_u8(b, 0, 5u8);
            let q0: int = 1;
            assert(b.subrange(q0, q0 + e0.len() as int) =~= e0) by {
                assert forall|j: int| 0 <= j < e0.len() implies b[q0 + j] == e0[j] by {}
            }
            lemma_take_u64(b, q0, iteration);
            let q1: int = q0 + e0.len();
            assert(b.subrange(q1, q1 + e1.len() as int) =~= e1) by {
                assert forall|j: int| 0 <= j < e1.len() implies b[q1 + j] == e1[j] by {}
            }
            lemma_take_entry_list_rt(b, q1, inbox);
            let q2: int = q1 + e1.len();
            assert(b.subrange(q2, q2 + e2.len() as int) =~= e2) by {
                assert forall|j: int| 0 <= j < e2.len() implies b[q2 + j] == e2[j] by {}
            }
            lemma_take_bool(b, q2, last);
            assert(spec_dec_d2w(b) == Some(v));
        },
        DriverToWorkerView::CreateCheckpoint { checkpoint_dir } => {
            let e0 = spec_lp_string(checkpoint_dir);
            assert(b == seq![6u8] + e0);
            assert(b.subrange(0, 1) =~= seq![6u8]);
            lemma_take_u8(b, 0, 6u8);
            let q0: int = 1;
            assert(b.subrange(q0, q0 + e0.len() as int) =~= e0) by {
                assert forall|j: int| 0 <= j < e0.len() implies b[q0 + j] == e0[j] by {}
            }
            lemma_take_string(b, q0, checkpoint_dir);
            assert(spec_dec_d2w(b) == Some(v));
        },
        DriverToWorkerView::LoadCheckpoint { checkpoint_dir } => {
            let e0 = spec_lp_string(checkpoint_dir);
            assert(b == seq![7u8] + e0);
            assert(b.subrange(0, 1) =~= seq![7u8]);
            lemma_take_u8(b, 0, 7u8);
            let q0: int = 1;
            assert(b.subrange(q0, q0 + e0.len() as int) =~= e0) by {
                assert forall|j: int| 0 <= j < e0.len() implies b[q0 + j] == e0[j] by {}
            }
            lemma_take_string(b, q0, checkpoint_dir);
            assert(spec_dec_d2w(b) == Some(v));
        },
        DriverToWorkerView::FetchVertices => {
            assert(b == seq![8u8]);
            assert(b.subrange(0, 1) =~= seq![8u8]);
            lemma_take_u8(b, 0, 8u8);
            assert(spec_dec_d2w(b) == Some(v));
        },
        DriverToWorkerView::DumpVerticesCsv { output_path } => {
            let e0 = spec_lp_string(output_path);
            assert(b == seq![9u8] + e0);
            assert(b.subrange(0, 1) =~= seq![9u8]);
            lemma_take_u8(b, 0, 9u8);
            let q0: int = 1;
            assert(b.subrange(q0, q0 + e0.len() as int) =~= e0) by {
                assert forall|j: int| 0 <= j < e0.len() implies b[q0 + j] == e0[j] by {}
            }
            lemma_take_string(b, q0, output_path);
            assert(spec_dec_d2w(b) == Some(v));
        },
        DriverToWorkerView::Shutdown => {
            assert(b == seq![10u8]);
            assert(b.subrange(0, 1) =~= seq![10u8]);
            lemma_take_u8(b, 0, 10u8);
            assert(spec_dec_d2w(b) == Some(v));
        },
    }
}
/// A reply from a worker to the driver.
#[derive(Debug, Clone)]
pub enum WorkerToDriver {
    Ready,
    GraphLoaded { last: bool },
    SuperstepResult { iteration: u64, outbox: Vec<(Vec<u8>, Vec<u8>)> },
    SuperstepResultBatch { iteration: u64, outbox: Vec<(Vec<u8>, Vec<u8>)>, last: bool },
    CheckpointCreated,
    CheckpointLoaded,
    Vertices { vertices: Vec<(Vec<u8>, Vec<u8>)> },
    VerticesDumped { output_path: String },
    Error { message: String },
}

/// The mathematical shape of a `WorkerToDriver` message.
pub enum WorkerToDriverView {
    Ready,
    GraphLoaded { last: bool },
    SuperstepResult { iteration: u64, outbox: Seq<(Seq<u8>, Seq<u8>)> },
    SuperstepResultBatch { iteration: u64, outbox: Seq<(Seq<u8>, Seq<u8>)>, last: bool },
    CheckpointCreated,
    CheckpointLoaded,
    Vertices { vertices: Seq<(Seq<u8>, Seq<u8>)> },
    VerticesDumped { output_path: Seq<char> },
    Error { message: Seq<char> },
}

impl View for WorkerToDriver {
    type V = WorkerToDriverView;

    open spec fn view(&self) -> WorkerToDriverView {
        match self {
            WorkerToDriver::Ready => WorkerToDriverView::Ready,
            WorkerToDriver::GraphLoaded { last } => WorkerToDriverView::GraphLoaded { last: *last },
            WorkerToDriver::SuperstepResult { iteration, outbox } => WorkerToDriverView::SuperstepResult { iteration: *iteration, outbox: view_pair_list(outbox@) },
            WorkerToDriver::SuperstepResultBatch { iteration, outbox, last } => WorkerToDriverView::SuperstepResultBatch { iteration: *iteration, outbox: view_pair_list(outbox@), last: *last },
            WorkerToDriver::CheckpointCreated => WorkerToDriverView::CheckpointCreated,
            WorkerToDriver::CheckpointLoaded => WorkerToDriverView::CheckpointLoaded,
            WorkerToDriver::Vertices { vertices } => WorkerToDriverView::Vertices { vertices: view_pair_list(vertices@) },
            WorkerToDriver::VerticesDumped { output_path } => WorkerToDriverView::VerticesDumped { output_path: output_path@ },
            WorkerToDriver::Error { message } => WorkerToDriverView::Error { message: message@ },
        }
    }
}

/// Every length in the message fits its 64-bit length prefix. Any message
/// built from in-memory vectors satisfies this.
pub open spec fn wf_w2d(v: WorkerToDriverView) -> bool {
    match v {
        WorkerToDriverView::Ready => true,
        WorkerToDriverView::GraphLoaded { last } => true,
        WorkerToDriverView::SuperstepResult { iteration, outbox } => wf_pair_list(outbox),
        WorkerToDriverView::SuperstepResultBatch { iteration, outbox, last } => wf_pair_list(outbox),
        WorkerToDriverView::CheckpointCreated => true,
        WorkerToDriverView::CheckpointLoaded => true,
        WorkerToDriverView::Vertices { vertices } => wf_pair_list(vertices),
        WorkerToDriverView::VerticesDumped { output_path } => wf_string_elem(output_path),
        WorkerToDriverView::Error { message } => wf_string_elem(message),
    }
}

/// The byte encoding of a `WorkerToDriver` message: a tag byte, then the fields.
pub open spec fn spec_enc_w2d(v: WorkerToDriverView) -> Seq<u8> {
    match v {
        WorkerToDriverView::Ready => seq![1u8],
        WorkerToDriverView::GraphLoaded { last } => seq![2u8] + spec_enc_bool(last),
        WorkerToDriverView::SuperstepResult { iteration, outbox } => seq![3u8] + spec_u64_to_le_bytes(iteration) + spec_enc_list(outbox, pair_enc()),
        WorkerToDriverView::SuperstepResultBatch { iteration, outbox, last } => seq![4u8] + spec_u64_to_le_bytes(iteration) + spec_enc_list(outbox, pair_enc()) + spec_enc_bool(last),
        WorkerToDriverView::CheckpointCreated => seq![5u8],
        WorkerToDriverView::CheckpointLoaded => seq![6u8],
        WorkerToDriverView::Vertices { vertices } => seq![7u8] + spec_enc_list(vertices, pair_enc()),
        WorkerToDriverView::VerticesDumped { output_path } => seq![8u8] + spec_lp_string(output_path),
        WorkerToDriverView::Error { message } => seq![9u8] + spec_lp_string(message),
    }
}

/// Parse a whole buffer as a `WorkerToDriver` message; trailing bytes are refused.
pub open spec fn spec_dec_w2d(b: Seq<u8>) -> Option<WorkerToDriverView> {
    match spec_take_u8(b, 0) {
        None => None,
        Some((tag, p0)) => {
            if tag == 1 {
                if p0 == b.len() {
                    Some(WorkerToDriverView::Ready)
                } else {
                    None
                }
            } else if tag == 2 {
                match spec_take_bool(b, p0) {
                    None => None,
                    Some((last, p1)) => {
                        if p1 == b.len() {
                            Some(WorkerToDriverView::GraphLoaded { last })
                        } else {
                            None
                        }
                    },
                }
            } else if tag == 3 {
                match spec_take_u64(b, p0) {
                    None => None,
                    Some((iteration, p1)) => {
                        match spec_take_list(b, p1, pair_parser()) {
                            None => None,
                            Some((outbox, p2)) => {
                                if p2 == b.len() {
                                    Some(WorkerToDriverView::SuperstepResult { iteration, outbox })
                                } else {
                                    None
                                }
                            },
                        }
                    },
                }
            } else if tag == 4 {
                match spec_take_u64(b, p0) {
                    None => None,
                    Some((iteration, p1)) => {
                        match spec_take_list(b, p1, pair_parser()) {
                            None => None,
                            Some((outbox, p2)) => {
                                match spec_take_bool(b, p2) {
                                    None => None,
                                    Some((last, p3)) => {
                                        if p3 == b.len() {
                                            Some(WorkerToDriverView::SuperstepResultBatch { iteration, outbox, last })
                                        } else {
                                            None
                                        }
                                    },
                                }
                            },
                        }
                    },
                }
            } else if tag == 5 {
                if p0 == b.len() {
                    Some(WorkerToDriverView::CheckpointCreated)
                } else {
                    None
                }
            } else if tag == 6 {
                if p0 == b.len() {
                    Some(WorkerToDriverView::CheckpointLoaded)
                } else {
                    None
                }
            } else if tag == 7 {
                match spec_take_list(b, p0, pair_parser()) {
                    None => None,
                    Some((vertices, p1)) => {
                        if p1 == b.len() {
                            Some(WorkerToDriverView::Vertices { vertices })
                        } else {
                            None
                        }
                    },
                }
            } else if tag == 8 {
                match spec_take_string(b, p0) {
                    None => None,
                    Some((output_path, p1)) => {
                        if p1 == b.len() {
                            Some(WorkerToDriverView::VerticesDumped { output_path })
                        } else {
                            None
                        }
                    },
                }
            } else if tag == 9 {
                match spec_take_string(b, p0) {
                    None => None,
                    Some((message, p1)) => {
                        if p1 == b.len() {
                            Some(WorkerToDriverView::Error { message })
                        } else {
                            None
                        }
                    },
                }
            } else {
                None
            }
        },
    }
}

/// Encode a `WorkerToDriver` message to bytes.
pub fn encode_w2d(m: &WorkerToDriver) -> (r: Vec<u8>)
    ensures
        r@ == spec_enc_w2d(m@),
{
    let mut out: Vec<u8> = Vec::new();
    match m {
        WorkerToDriver::Ready => {
            put_u8(&mut out, 1);
            assert(out@ =~= spec_enc_w2d(m@));
        },
        WorkerToDriver::GraphLoaded { last } => {
            put_u8(&mut out, 2);
            put_bool(&mut out, *last);
            assert(out@ =~= spec_enc_w2d(m@));
        },
        WorkerToDriver::SuperstepResult { iteration, outbox } => {
            put_u8(&mut out, 3);
            put_u64(&mut out, *iteration);
            put_pair_list(&mut out, outbox);
            assert(out@ =~= spec_enc_w2d(m@));
        },
        WorkerToDriver::SuperstepResultBatch { iteration, outbox, last } => {
            put_u8(&mut out, 4);
            put_u64(&mut out, *iteration);
            put_pair_list(&mut out, outbox);
            put_bool(&mut out, *last);
            assert(out@ =~= spec_enc_w2d(m@));
        },
        WorkerToDriver::CheckpointCreated => {
            put_u8(&mut out, 5);
            assert(out@ =~= spec_enc_w2d(m@));
        },
        WorkerToDriver::CheckpointLoaded => {
            put_u8(&mut out, 6);
            assert(out@ =~= spec_enc_w2d(m@));
        },
        WorkerToDriver::Vertices { vertices } => {
            put_u8(&mut out, 7);
            put_pair_list(&mut out, vertices);
            assert(out@ =~= spec_enc_w2d(m@));
        },
        WorkerToDriver::VerticesDumped { output_path } => {
            put_u8(&mut out, 8);
            put_string(&mut out, output_path);
            assert(out@ =~= spec_enc_w2d(m@));
        },
        WorkerToDriver::Error { message } => {
            put_u8(&mut out, 9);
            put_string(&mut out, message);
            assert(out@ =~= spec_enc_w2d(m@));
        },
    }
    out
}

/// Decode a `WorkerToDriver` message from a whole buffer.
pub fn decode_w2d(b: &Vec<u8>) -> (r: Option<WorkerToDriver>)
    ensures
        match r {
            Some(m) => spec_dec_w2d(b@) == Some(m@),
            None => spec_dec_w2d(b@) is None,
        },
{
    match take_u8(b, 0) {
        None => None,
        Some((tag, p0)) => {
            if tag == 1 {
                if p0 == b.len() {
                    Some(WorkerToDriver::Ready)
                } else {
                    None
                }
            } else if tag == 2 {
                match take_bool(b, p0) {
                    None => None,
                    Some((last, p1)) => {
                        if p1 == b.len() {
                            Some(WorkerToDriver::GraphLoaded { last })
                        } else {
                            None
                        }
                    },
                }
            } else if tag == 3 {
                match take_u64(b, p0) {
                    None => None,
                    Some((iteration, p1)) => {
                        match take_pair_list(b, p1) {
                            None => None,
                            Some((outbox, p2)) => {
                                if p2 == b.len() {
                                    Some(WorkerToDriver::SuperstepResult { iteration, outbox })
                                } else {
                                    None
                                }
                            },
                        }
                    },
                }
            } else if tag == 4 {
                match take_u64(b, p0) {
                    None => None,
                    Some((iteration, p1)) => {
                        match take_pair_list(b, p1) {
                            None => None,
                            Some((outbox, p2)) => {
                                match take_bool(b, p2) {
                                    None => None,
                                    Some((last, p3)) => {
                                        if p3 == b.len() {
                                            Some(WorkerToDriver::SuperstepResultBatch { iteration, outbox, last })
                                        } else {
                                            None
                                        }
                                    },
                                }
                            },
                        }
                    },
                }
            } else if tag == 5 {
                if p0 == b.len() {
                    Some(WorkerToDriver::CheckpointCreated)
                } else {
                    None
                }
            } else if tag == 6 {
                if p0 == b.len() {
                    Some(WorkerToDriver::CheckpointLoaded)
                } else {
                    None
                }
            } else if tag == 7 {
                match take_pair_list(b, p0) {
                    None => None,
                    Some((vertices, p1)) => {
                        if p1 == b.len() {
                            Some(WorkerToDriver::Vertices { vertices })
                        } else {
                            None
                        }
                    },
                }
            } else if tag == 8 {
                match take_string(b, p0) {
                    None => None,
                    Some((output_path, p1)) => {
                        if p1 == b.len() {
                            Some(WorkerToDriver::VerticesDumped { output_path })
                        } else {
                            None
                        }
                    },
                }
            } else if tag == 9 {
                match take_string(b, p0) {
                    None => None,
                    Some((message, p1)) => {
                        if p1 == b.len() {
                            Some(WorkerToDriver::Error { message })
                        } else {
                            None
                        }
                    },
                }
            } else {
                None
            }
        },
    }
}

/// The codec inverts itself: decoding an encoded `WorkerToDriver` message gives
/// the message back.
pub proof fn lemma_roundtrip_w2d(v: WorkerToDriverView)
    requires
        wf_w2d(v),
    ensures
        spec_dec_w2d(spec_enc_w2d(v)) == Some(v),
{
    let b = spec_enc_w2d(v);
    lemma_auto_spec_u64_to_from_le_bytes();
    match v {
        WorkerToDriverView::Ready => {
            assert(b == seq![1u8]);
            assert(b.subrange(0, 1) =~= seq![1u8]);
            lemma_take_u8(b, 0, 1u8);
            assert(spec_dec_w2d(b) == Some(v));
        },
        WorkerToDriverView::GraphLoaded { last } => {
            let e0 = spec_enc_bool(last);
            assert(b == seq![2u8] + e0);
            assert(b.subrange(0, 1) =~= seq![2u8]);
            lemma_take_u8(b, 0, 2u8);
            let q0: int = 1;
            assert(b.subrange(q0, q0 + e0.len() as int) =~= e0) by {
                assert forall|j: int| 0 <= j < e0.len() implies b[q0 + j] == e0[j] by {}
            }
            lemma_take_bool(b, q0, last);
            assert(spec_dec_w2d(b) == Some(v));
        },
        WorkerToDriverView::SuperstepResult { iteration, outbox } => {
            let e0 = spec_u64_to_le_bytes(iteration);
            let e1 = spec_enc_list(outbox, pair_enc());
            assert(b == seq![3u8] + e0 + e1);
            assert(b.subrange(0, 1) =~= seq![3u8]);
            lemma_take_u8(b, 0, 3u8);
            let q0: int = 1;
            assert(b.subrange(q0, q0 + e0.len() as int) =~= e0) by {
                assert forall|j: int| 0 <= j < e0.len() implies b[q0 + j] == e0[j] by {}
            }
            lemma_take_u64(b, q0, iteration);
            let q1: int = q0 + e0.len();
            assert(b.subrange(q1, q1 + e1.len() as int) =~= e1) by {
                assert forall|j: int| 0 <= j < e1.len() implies b[q1 + j] == e1[j] by {}
            }
            lemma_take_pair_list_rt(b, q1, outbox);
            assert(spec_dec_w2d(b) == Some(v));
        },
        WorkerToDriverView::SuperstepResultBatch { iteration, outbox, last } => {
            let e0 = spec_u64_to_le_bytes(iteration);
            let e1 = spec_enc_list(outbox, pair_enc());
            let e2 = spec_enc_bool(last);
            assert(b == seq![4u8] + e0 + e1 + e2);
            assert(b.subrange(0, 1) =~= seq![4u8]);
            lemma_take_u8(b, 0, 4u8);
            let q0: int = 1;
            assert(b.subrange(q0, q0 + e0.len() as int) =~= e0) by {
                assert forall|j: int| 0 <= j < e0.len() implies b[q0 + j] == e0[j] by {}
            }
            lemma_take_u64(b, q0, iteration);
            let q1: int = q0 + e0.len();
            assert(b.subrange(q1, q1 + e1.len() as int) =~= e1) by {
                assert forall|j: int| 0 <= j < e1.len() implies b[q1 + j] == e1[j] by {}
            }
            lemma_take_pair_list_rt(b, q1, outbox);
            let q2: int = q1 + e1.len();
            assert(b.subrange(q2, q2 + e2.len() as int) =~= e2) by {
                assert forall|j: int| 0 <= j < e2.len() implies b[q2 + j] == e2[j] by {}
            }
            lemma_take_bool(b, q2, last);
            assert(spec_dec_w2d(b) == Some(v));
        },
        WorkerToDriverView::CheckpointCreated => {
            assert(b == seq![5u8]);
            assert(b.subrange(0, 1) =~= seq![5u8]);
            lemma_take_u8(b, 0, 5u8);
            assert(spec_dec_w2d(b) == Some(v));
        },
        WorkerToDriverView::CheckpointLoaded => {
            assert(b == seq![6u8]);
            assert(b.subrange(0, 1) =~= seq![6u8]);
            lemma_take_u8(b, 0, 6u8);
            assert(spec_dec_w2d(b) == Some(v));
        },
        WorkerToDriverView::Vertices { vertices } => {
            let e0 = spec_enc_list(vertices, pair_enc());
            assert(b == seq![7u8] + e0);
            assert(b.subrange(0, 1) =~= seq![7u8]);
            lemma_take_u8(b, 0, 7u8);
            let q0: int = 1;
            assert(b.subrange(q0, q0 + e0.len() as int) =~= e0) by {
                assert forall|j: int| 0 <= j < e0.len() implies b[q0 + j] == e0[j] by {}
            }
            lemma_take_pair_list_rt(b, q0, vertices);
            assert(spec_dec_w2d(b) == Some(v));
        },
        WorkerToDriverView::VerticesDumped { output_path } => {
            let e0 = spec_lp_string(output_path);
            assert(b == seq![8u8] + e0);
            assert(b.subrange(0, 1) =~= seq![8u8]);
            lemma_take_u8(b, 0, 8u8);
            let q0: int = 1;
            assert(b.subrange(q0, q0 + e0.len() as int) =~= e0) by {
                assert forall|j: int| 0 <= j < e0.len() implies b[q0 + j] == e0[j] by {}
            }
            lemma_take_string(b, q0, output_path);
            assert(spec_dec_w2d(b) == Some(v));
        },
        WorkerToDriverView::Error { message } => {
            let e0 = spec_lp_string(message);
            assert(b == seq![9u8] + e0);
            assert(b.subrange(0, 1) =~= seq![9u8]);
            lemma_take_u8(b, 0, 9u8);
            let q0: int = 1;
            assert(b.subrange(q0, q0 + e0.len() as int) =~= e0) by {
                assert forall|j: int| 0 <= j < e0.len() implies b[q0 + j] == e0[j] by {}
            }
            lemma_take_string(b, q0, message);
            assert(spec_dec_w2d(b) == Some(v));
        },
    }
}
/// A request from a client to the job submission service.
#[derive(Debug, Clone)]
pub enum ClientToDriver {
    SubmitJob { job_spec: Vec<u8> },
    GetJobStatus { job_id: String },
    FetchVertices { job_id: String },
    Shutdown,
}

/// The mathematical shape of a `ClientToDriver` message.
pub enum ClientToDriverView {
    SubmitJob { job_spec: Seq<u8> },
    GetJobStatus { job_id: Seq<char> },
    FetchVertices { job_id: Seq<char> },
    Shutdown,
}

impl View for ClientToDriver {
    type V = ClientToDriverView;

    open spec fn view(&self) -> ClientToDriverView {
        match self {
            ClientToDriver::SubmitJob { job_spec } => ClientToDriverView::SubmitJob { job_spec: job_spec@ },
            ClientToDriver::GetJobStatus { job_id } => ClientToDriverView::GetJobStatus { job_id: job_id@ },
            ClientToDriver::FetchVertices { job_id } => ClientToDriverView::FetchVertices { job_id: job_id@ },
            ClientToDriver::Shutdown => ClientToDriverView::Shutdown,
        }
    }
}

/// Every length in the message fits its 64-bit length prefix. Any message
/// built from in-memory vectors satisfies this.
pub open spec fn wf_c2d(v: ClientToDriverView) -> bool {
    match v {
        ClientToDriverView::SubmitJob { job_spec } => wf_bytes_elem(job_spec),
        ClientToDriverView::GetJobStatus { job_id } => wf_string_elem(job_id),
        ClientToDriverView::FetchVertices { job_id } => wf_string_elem(job_id),
        ClientToDriverView::Shutdown => true,
    }
}

/// The byte encoding of a `ClientToDriver` message: a tag byte, then the fields.
pub open spec fn spec_enc_c2d(v: ClientToDriverView) -> Seq<u8> {
    match v {
        ClientToDriverView::SubmitJob { job_spec } => seq![1u8] + spec_lp_bytes(job_spec),
        ClientToDriverView::GetJobStatus { job_id } => seq![2u8] + spec_lp_string(job_id),
        ClientToDriverView::FetchVertices { job_id } => seq![3u8] + spec_lp_string(job_id),
        ClientToDriverView::Shutdown => seq![4u8],
    }
}

/// Parse a whole buffer as a `ClientToDriver` message; trailing bytes are refused.
pub open spec fn spec_dec_c2d(b: Seq<u8>) -> Option<ClientToDriverView> {
    match spec_take_u8(b, 0) {
        None => None,
        Some((tag, p0)) => {
            if tag == 1 {
                match spec_take_bytes(b, p0) {
                    None => None,
                    Some((job_spec, p1)) => {
                        if p1 == b.len() {
                            Some(ClientToDriverView::SubmitJob { job_spec })
                        } else {
                            None
                        }
                    },
                }
            } else if tag == 2 {
                match spec_take_string(b, p0) {
                    None => None,
                    Some((job_id, p1)) => {
                        if p1 == b.len() {
                            Some(ClientToDriverView::GetJobStatus { job_id })
                        } else {
                            None
                        }
                    },
                }
            } else if tag == 3 {
                match spec_take_string(b, p0) {
                    None => None,
                    Some((job_id, p1)) => {
                        if p1 == b.len() {
                            Some(ClientToDriverView::FetchVertices { job_id })
                        } else {
                            None
                        }
                    },
                }
            } else if tag == 4 {
                if p0 == b.len() {
                    Some(ClientToDriverView::Shutdown)
                } else {
                    None
                }
            } else {
                None
            }
        },
    }
}

/// Encode a `ClientToDriver` message to bytes.
pub fn encode_c2d(m: &ClientToDriver) -> (r: Vec<u8>)
    ensures
        r@ == spec_enc_c2d(m@),
{
    let mut out: Vec<u8> = Vec::new();
    match m {
        ClientToDriver::SubmitJob { job_spec } => {
            put_u8(&mut out, 1);
            put_bytes(&mut out, job_spec);
            assert(out@ =~= spec_enc_c2d(m@));
        },
        ClientToDriver::GetJobStatus { job_id } => {
            put_u8(&mut out, 2);
            put_string(&mut out, job_id);
            assert(out@ =~= spec_enc_c2d(m@));
        },
        ClientToDriver::FetchVertices { job_id } => {
            put_u8(&mut out, 3);
            put_string(&mut out, job_id);
            assert(out@ =~= spec_enc_c2d(m@));
        },
        ClientToDriver::Shutdown => {
            put_u8(&mut out, 4);
            assert(out@ =~= spec_enc_c2d(m@));
        },
    }
    out
}

/// Decode a `ClientToDriver` message from a whole buffer.
pub fn decode_c2d(b: &Vec<u8>) -> (r: Option<ClientToDriver>)
    ensures
        match r {
            Some(m) => spec_dec_c2d(b@) == Some(m@),
            None => spec_dec_c2d(b@) is None,
        },
{
    match take_u8(b, 0) {
        None => None,
        Some((tag, p0)) => {
            if tag == 1 {
                match take_bytes(b, p0) {
                    None => None,
                    Some((job_spec, p1)) => {
                        if p1 == b.len() {
                            Some(ClientToDriver::SubmitJob { job_spec })
                        } else {
                            None
                        }
                    },
                }
            } else if tag == 2 {
                match take_string(b, p0) {
                    None => None,
                    Some((job_id, p1)) => {
                        if p1 == b.len() {
                            Some(ClientToDriver::GetJobStatus { job_id })
                        } else {
                            None
                        }
                    },
                }
            } else if tag == 3 {
                match take_string(b, p0) {
                    None => None,
                    Some((job_id, p1)) => {
                        if p1 == b.len() {
                            Some(ClientToDriver::FetchVertices { job_id })
                        } else {
                            None
                        }
                    },
                }
            } else if tag == 4 {
                if p0 == b.len() {
                    Some(ClientToDriver::Shutdown)
                } else {
                    None
                }
            } else {
                None
            }
        },
    }
}

/// The codec inverts itself: decoding an encoded `ClientToDriver` message gives
/// the message back.
pub proof fn lemma_roundtrip_c2d(v: ClientToDriverView)
    requires
        wf_c2d(v),
    ensures
        spec_dec_c2d(spec_enc_c2d(v)) == Some(v),
{
    let b = spec_enc_c2d(v);
    lemma_auto_spec_u64_to_from_le_bytes();
    match v {
        ClientToDriverView::SubmitJob { job_spec } => {
            let e0 = spec_lp_bytes(job_spec);
            assert(b == seq![1u8] + e0);
            assert(b.subrange(0, 1) =~= seq![1u8]);
            lemma_take_u8(b, 0, 1u8);
            let q0: int = 1;
            assert(b.subrange(q0, q0 + e0.len() as int) =~= e0) by {
                assert forall|j: int| 0 <= j < e0.len() implies b[q0 + j] == e0[j] by {}
            }
            lemma_take_bytes(b, q0, job_spec);
            assert(spec_dec_c2d(b) == Some(v));
        },
        ClientToDriverView::GetJobStatus { job_id } => {
            let e0 = spec_lp_string(job_id);
            assert(b == seq![2u8] + e0);
            assert(b.subrange(0, 1) =~= seq![2u8]);
            lemma_take_u8(b, 0, 2u8);
            let q0: int = 1;
            assert(b.subrange(q0, q0 + e0.len() as int) =~= e0) by {
                assert forall|j: int| 0 <= j < e0.len() implies b[q0 + j] == e0[j] by {}
            }
            lemma_take_string(b, q0, job_id);
            assert(spec_dec_c2d(b) == Some(v));
        },
        ClientToDriverView::FetchVertices { job_id } => {
            let e0 = spec_lp_string(job_id);
            assert(b == seq![3u8] + e0);
            assert(b.subrange(0, 1) =~= seq![3u8]);
            lemma_take_u8(b, 0, 3u8);
            let q0: int = 1;
            assert(b.subrange(q0, q0 + e0.len() as int) =~= e0) by {
                assert forall|j: int| 0 <= j < e0.len() implies b[q0 + j] == e0[j] by {}
            }
            lemma_take_string(b, q0, job_id);
            assert(spec_dec_c2d(b) == Some(v));
        },
        ClientToDriverView::Shutdown => {
            assert(b == seq![4u8]);
            assert(b.subrange(0, 1) =~= seq![4u8]);
            lemma_take_u8(b, 0, 4u8);
            assert(spec_dec_c2d(b) == Some(v));
        },
    }
}
/// A reply from the job submission service to a client.
#[derive(Debug, Clone)]
pub enum DriverToClient {
    JobAccepted { job_id: String },
    JobStatus { job_id: String, state: String },
    Vertices { job_id: String, vertices: Vec<(Vec<u8>, Vec<u8>)> },
    Error { message: String },
}

/// The mathematical shape of a `DriverToClient` message.
pub enum DriverToClientView {
    JobAccepted { job_id: Seq<char> },
    JobStatus { job_id: Seq<char>, state: Seq<char> },
    Vertices { job_id: Seq<char>, vertices: Seq<(Seq<u8>, Seq<u8>)> },
    Error { message: Seq<char> },
}

impl View for DriverToClient {
    type V = DriverToClientView;

    open spec fn view(&self) -> DriverToClientView {
        match self {
            DriverToClient::JobAccepted { job_id } => DriverToClientView::JobAccepted { job_id: job_id@ },
            DriverToClient::JobStatus { job_id, state } => DriverToClientView::JobStatus { job_id: job_id@, state: state@ },
            DriverToClient::Vertices { job_id, vertices } => DriverToClientView::Vertices { job_id: job_id@, vertices: view_pair_list(vertices@) },
            DriverToClient::Error { message } => DriverToClientView::Error { message: message@ },
        }
    }
}

/// Every length in the message fits its 64-bit length prefix. Any message
/// built from in-memory vectors satisfies this.
pub open spec fn wf_d2c(v: DriverToClientView) -> bool {
    match v {
        DriverToClientView::JobAccepted { job_id } => wf_string_elem(job_id),
        DriverToClientView::JobStatus { job_id, state } => wf_string_elem(job_id) && wf_string_elem(state),
        DriverToClientView::Vertices { job_id, vertices } => wf_string_elem(job_id) && wf_pair_list(vertices),
        DriverToClientView::Error { message } => wf_string_elem(message),
    }
}

/// The byte encoding of a `DriverToClient` message: a tag byte, then the fields.
pub open spec fn spec_enc_d2c(v: DriverToClientView) -> Seq<u8> {
    match v {
        DriverToClientView::JobAccepted { job_id } => seq![1u8] + spec_lp_string(job_id),
        DriverToClientView::JobStatus { job_id, state } => seq![2u8] + spec_lp_string(job_id) + spec_lp_string(state),
        DriverToClientView::Vertices { job_id, vertices } => seq![3u8] + spec_lp_string(job_id) + spec_enc_list(vertices, pair_enc()),
        DriverToClientView::Error { message } => seq![4u8] + spec_lp_string(message),
    }
}

/// Parse a whole buffer as a `DriverToClient` message; trailing bytes are refused.
pub open spec fn spec_dec_d2c(b: Seq<u8>) -> Option<DriverToClientView> {
    match spec_take_u8(b, 0) {
        None => None,
        Some((tag, p0)) => {
            if tag == 1 {
                match spec_take_string(b, p0) {
                    None => None,
                    Some((job_id, p1)) => {
                        if p1 == b.len() {
                            Some(DriverToClientView::JobAccepted { job_id })
                        } else {
                            None
                        }
                    },
                }
            } else if tag == 2 {
                match spec_take_string(b, p0) {
                    None => None,
                    Some((job_id, p1)) => {
                        match spec_take_string(b, p1) {
                            None => None,
                            Some((state, p2)) => {
                                if p2 == b.len() {
                                    Some(DriverToClientView::JobStatus { job_id, state })
                                } else {
                                    None
                                }
                            },
                        }
                    },
                }
            } else if tag == 3 {
                match spec_take_string(b, p0) {
                    None => None,
                    Some((job_id, p1)) => {
                        match spec_take_list(b, p1, pair_parser()) {
                            None => None,
                            Some((vertices, p2)) => {
                                if p2 == b.len() {
                                    Some(DriverToClientView::Vertices { job_id, vertices })
                                } else {
                                    None
                                }
                            },
                        }
                    },
                }
            } else if tag == 4 {
                match spec_take_string(b, p0) {
                    None => None,
                    Some((message, p1)) => {
                        if p1 == b.len() {
                            Some(DriverToClientView::Error { message })
                        } else {
                            None
                        }
                    },
                }
            } else {
                None
            }
        },
    }
}

/// Encode a `DriverToClient` message to bytes.
pub fn encode_d2c(m: &DriverToClient) -> (r: Vec<u8>)
    ensures
        r@ == spec_enc_d2c(m@),
{
    let mut out: Vec<u8> = Vec::new();
    match m {
        DriverToClient::JobAccepted { job_id } => {
            put_u8(&mut out, 1);
            put_string(&mut out, job_id);
            assert(out@ =~= spec_enc_d2c(m@));
        },
        DriverToClient::JobStatus { job_id, state } => {
            put_u8(&mut out, 2);
            put_string(&mut out, job_id);
            put_string(&mut out, state);
            assert(out@ =~= spec_enc_d2c(m@));
        },
        DriverToClient::Vertices { job_id, vertices } => {
            put_u8(&mut out, 3);
            put_string(&mut out, job_id);
            put_pair_list(&mut out, vertices);
            assert(out@ =~= spec_enc_d2c(m@));
        },
        DriverToClient::Error { message } => {
            put_u8(&mut out, 4);
            put_string(&mut out, message);
            assert(out@ =~= spec_enc_d2c(m@));
        },
    }
    out
}

/// Decode a `DriverToClient` message from a whole buffer.
pub fn decode_d2c(b: &Vec<u8>) -> (r: Option<DriverToClient>)
    ensures
        match r {
            Some(m) => spec_dec_d2c(b@) == Some(m@),
            None => spec_dec_d2c(b@) is None,
        },
{
    match take_u8(b, 0) {
        None => None,
        Some((tag, p0)) => {
            if tag == 1 {
                match take_string(b, p0) {
                    None => None,
                    Some((job_id, p1)) => {
                        if p1 == b.len() {
                            Some(DriverToClient::JobAccepted { job_id })
                        } else {
                            None
                        }
                    },
                }
            } else if tag == 2 {
                match take_string(b, p0) {
                    None => None,
                    Some((job_id, p1)) => {
                        match take_string(b, p1) {
                            None => None,
                            Some((state, p2)) => {
                                if p2 == b.len() {
                                    Some(DriverToClient::JobStatus { job_id, state })
                                } else {
                                    None
                                }
                            },
                        }
                    },
                }
            } else if tag == 3 {
                match take_string(b, p0) {
                    None => None,
                    Some((job_id, p1)) => {
                        match take_pair_list(b, p1) {
                            None => None,
                            Some((vertices, p2)) => {
                                if p2 == b.len() {
                                    Some(DriverToClient::Vertices { job_id, vertices })
                                } else {
                                    None
                                }
                            },
                        }
                    },
                }
            } else if tag == 4 {
                match take_string(b, p0) {
                    None => None,
                    Some((message, p1)) => {
                        if p1 == b.len() {
                            Some(DriverToClient::Error { message })
                        } else {
                            None
                        }
                    },
                }
            } else {
                None
            }
        },
    }
}

/// The codec inverts itself: decoding an encoded `DriverToClient` message gives
/// the message back.
pub proof fn lemma_roundtrip_d2c(v: DriverToClientView)
    requires
        wf_d2c(v),
    ensures
        spec_dec_d2c(spec_enc_d2c(v)) == Some(v),
{
    let b = spec_enc_d2c(v);
    lemma_auto_spec_u64_to_from_le_bytes();
    match v {
        DriverToClientView::JobAccepted { job_id } => {
            let e0 = spec_lp_string(job_id);
            assert(b == seq![1u8] + e0);
            assert(b.subrange(0, 1) =~= seq![1u8]);
            lemma_take_u8(b, 0, 1u8);
            let q0: int = 1;
            assert(b.subrange(q0, q0 + e0.len() as int) =~= e0) by {
                assert forall|j: int| 0 <= j < e0.len() implies b[q0 + j] == e0[j] by {}
            }
            lemma_take_string(b, q0, job_id);
            assert(spec_dec_d2c(b) == Some(v));
        },
        DriverToClientView::JobStatus { job_id, state } => {
            let e0 = spec_lp_string(job_id);
            let e1 = spec_lp_string(state);
            assert(b == seq![2u8] + e0 + e1);
            assert(b.subrange(0, 1) =~= seq![2u8]);
            lemma_take_u8(b, 0, 2u8);
            let q0: int = 1;
            assert(b.subrange(q0, q0 + e0.len() as int) =~= e0) by {
                assert forall|j: int| 0 <= j < e0.len() implies b[q0 + j] == e0[j] by {}
            }
            lemma_take_string(b, q0, job_id);
            let q1: int = q0 + e0.len();
            assert(b.subrange(q1, q1 + e1.len() as int) =~= e1) by {
                assert forall|j: int| 0 <= j < e1.len() implies b[q1 + j] == e1[j] by {}
            }
            lemma_take_string(b, q1, state);
            assert(spec_dec_d2c(b) == Some(v));
        },
        DriverToClientView::Vertices { job_id, vertices } => {
            let e0 = spec_lp_string(job_id);
            let e1 = spec_enc_list(vertices, pair_enc());
            assert(b == seq![3u8] + e0 + e1);
            assert(b.subrange(0, 1) =~= seq![3u8]);
            lemma_take_u8(b, 0, 3u8);
            let q0: int = 1;
            assert(b.subrange(q0, q0 + e0.len() as int) =~= e0) by {
                assert forall|j: int| 0 <= j < e0.len() implies b[q0 + j] == e0[j] by {}
            }
            lemma_take_string(b, q0, job_id);
            let q1: int = q0 + e0.len();
            assert(b.subrange(q1, q1 + e1.len() as int) =~= e1) by {
                assert forall|j: int| 0 <= j < e1.len() implies b[q1 + j] == e1[j] by {}
            }
            lemma_take_pair_list_rt(b, q1, vertices);
            assert(spec_dec_d2c(b) == Some(v));
        },
        DriverToClientView::Error { message } => {
            let e0 = spec_lp_string(message);
            assert(b == seq![4u8] + e0);
            assert(b.subrange(0, 1) =~= seq![4u8]);
            lemma_take_u8(b, 0, 4u8);
            let q0: int = 1;
            assert(b.subrange(q0, q0 + e0.len() as int) =~= e0) by {
                assert forall|j: int| 0 <= j < e0.len() implies b[q0 + j] == e0[j] by {}
            }
            lemma_take_string(b, q0, message);
            assert(spec_dec_d2c(b) == Some(v));
        },
    }
}
/// A reply from the master to a worker or driver.
#[derive(Debug, Clone)]
pub enum MasterResponse {
    Ack,
    Workers { worker_addrs: Vec<String> },
    Error { message: String },
}

/// The mathematical shape of a `MasterResponse` message.
pub enum MasterResponseView {
    Ack,
    Workers { worker_addrs: Seq<Seq<char>> },
    Error { message: Seq<char> },
}

impl View for MasterResponse {
    type V = MasterResponseView;

    open spec fn view(&self) -> MasterResponseView {
        match self {
            MasterResponse::Ack => MasterResponseView::Ack,
            MasterResponse::Workers { worker_addrs } => MasterResponseView::Workers { worker_addrs: view_string_list(worker_addrs@) },
            MasterResponse::Error { message } => MasterResponseView::Error { message: message@ },
        }
    }
}

/// Every length in the message fits its 64-bit length prefix. Any message
/// built from in-memory vectors satisfies this.
pub open spec fn wf_master_response(v: MasterResponseView) -> bool {
    match v {
        MasterResponseView::Ack => true,
        MasterResponseView::Workers { worker_addrs } => wf_string_list(worker_addrs),
        MasterResponseView::Error { message } => wf_string_elem(message),
    }
}

/// The byte encoding of a `MasterResponse` message: a tag byte, then the fields.
pub open spec fn spec_enc_master_response(v: MasterResponseView) -> Seq<u8> {
    match v {
        MasterResponseView::Ack => seq![1u8],
        MasterResponseView::Workers { worker_addrs } => seq![2u8] + spec_enc_list(worker_addrs, string_enc()),
        MasterResponseView::Error { message } => seq![3u8] + spec_lp_string(message),
    }
}

/// Parse a whole buffer as a `MasterResponse` message; trailing bytes are refused.
pub open spec fn spec_dec_master_response(b: Seq<u8>) -> Option<MasterResponseView> {
    match spec_take_u8(b, 0) {
        None => None,
        Some((tag, p0)) => {
            if tag == 1 {
                if p0 == b.len() {
                    Some(MasterResponseView::Ack)
                } else {
                    None
                }
            } else if tag == 2 {
                match spec_take_list(b, p0, string_parser()) {
                    None => None,
                    Some((worker_addrs, p1)) => {
                        if p1 == b.len() {
                            Some(MasterResponseView::Workers { worker_addrs })
                        } else {
                            None
                        }
                    },
                }
            } else if tag == 3 {
                match spec_take_string(b, p0) {
                    None => None,
                    Some((message, p1)) => {
                        if p1 == b.len() {
                            Some(MasterResponseView::Error { message })
                        } else {
                            None
                        }
                    },
                }
            } else {
                None
            }
        },
    }
}

/// Encode a `MasterResponse` message to bytes.
pub fn encode_master_response(m: &MasterResponse) -> (r: Vec<u8>)
    ensures
        r@ == spec_enc_master_response(m@),
{
    let mut out: Vec<u8> = Vec::new();
    match m {
        MasterResponse::Ack => {
            put_u8(&mut out, 1);
            assert(out@ =~= spec_enc_master_response(m@));
        },
        MasterResponse::Workers { worker_addrs } => {
            put_u8(&mut out, 2);
            put_string_list(&mut out, worker_addrs);
            assert(out@ =~= spec_enc_master_response(m@));
        },
        MasterResponse::Error { message } => {
            put_u8(&mut out, 3);
            put_string(&mut out, message);
            assert(out@ =~= spec_enc_master_response(m@));
        },
    }
    out
}

/// Decode a `MasterResponse` message from a whole buffer.
pub fn decode_master_response(b: &Vec<u8>) -> (r: Option<MasterResponse>)
    ensures
        match r {
            Some(m) => spec_dec_master_response(b@) == Some(m@),
            None => spec_dec_master_response(b@) is None,
        },
{
    match take_u8(b, 0) {
        None => None,
        Some((tag, p0)) => {
            if tag == 1 {
                if p0 == b.len() {
                    Some(MasterResponse::Ack)
                } else {
                    None
                }
            } else if tag == 2 {
                match take_string_list(b, p0) {
                    None => None,
                    Some((worker_addrs, p1)) => {
                        if p1 == b.len() {
                            Some(MasterResponse::Workers { worker_addrs })
                        } else {
                            None
                        }
                    },
                }
            } else if tag == 3 {
                match take_string(b, p0) {
                    None => None,
                    Some((message, p1)) => {
                        if p1 == b.len() {
                            Some(MasterResponse::Error { message })
                        } else {
                            None
                        }
                    },
                }
            } else {
                None
            }
        },
    }
}

/// The codec inverts itself: decoding an encoded `MasterResponse` message gives
/// the message back.
pub proof fn lemma_roundtrip_master_response(v: MasterResponseView)
    requires
        wf_master_response(v),
    ensures
        spec_dec_master_response(spec_enc_master_response(v)) == Some(v),
{
    let b = spec_enc_master_response(v);
    lemma_auto_spec_u64_to_from_le_bytes();
    match v {
        MasterResponseView::Ack => {
            assert(b == seq![1u8]);
            assert(b.subrange(0, 1) =~= seq![1u8]);
            lemma_take_u8(b, 0, 1u8);
            assert(spec_dec_master_response(b) == Some(v));
        },
        MasterResponseView::Workers { worker_addrs } => {
            let e0 = spec_enc_list(worker_addrs, string_enc());
            assert(b == seq![2u8] + e0);
            assert(b.subrange(0, 1) =~= seq![2u8]);
            lemma_take_u8(b, 0, 2u8);
            let q0: int = 1;
            assert(b.subrange(q0, q0 + e0.len() as int) =~= e0) by {
                assert forall|j: int| 0 <= j < e0.len() implies b[q0 + j] == e0[j] by {}
            }
            lemma_take_string_list_rt(b, q0, worker_addrs);
            assert(spec_dec_master_response(b) == Some(v));
        },
        MasterResponseView::Error { message } => {
            let e0 = spec_lp_string(message);
            assert(b == seq![3u8] + e0);
            assert(b.subrange(0, 1) =~= seq![3u8]);
            lemma_take_u8(b, 0, 3u8);
            let q0: int = 1;
            assert(b.subrange(q0, q0 + e0.len() as int) =~= e0) by {
                assert forall|j: int| 0 <= j < e0.len() implies b[q0 + j] == e0[j] by {}
            }
            lemma_take_string(b, q0, message);
            assert(spec_dec_master_response(b) == Some(v));
        },
    }
}

/// A message from a worker to the master: registration or heartbeat.
#[derive(Debug, Clone)]
pub enum WorkerToMaster {
    Register { worker_addr: String },
    Heartbeat { worker_addr: String },
}

/// A message from a driver to the master.
#[derive(Debug, Clone)]
pub enum DriverToMaster {
    GetWorkers,
}

/// Any request the master accepts, from a worker or from a driver.
#[derive(Debug, Clone)]
pub enum MasterRequest {
    Worker(WorkerToMaster),
    Driver(DriverToMaster),
}

/// The mathematical shape of a `MasterRequest`.
pub enum MasterRequestView {
    Register { worker_addr: Seq<char> },
    Heartbeat { worker_addr: Seq<char> },
    GetWorkers,
}

impl View for MasterRequest {
    type V = MasterRequestView;

    open spec fn view(&self) -> MasterRequestView {
        match self {
            MasterRequest::Worker(WorkerToMaster::Register { worker_addr }) =>
                MasterRequestView::Register { worker_addr: worker_addr@ },
            MasterRequest::Worker(WorkerToMaster::Heartbeat { worker_addr }) =>
                MasterRequestView::Heartbeat { worker_addr: worker_addr@ },
            MasterRequest::Driver(DriverToMaster::GetWorkers) => MasterRequestView::GetWorkers,
        }
    }
}

/// Every length in the message fits its 64-bit length prefix.
pub open spec fn wf_master_request(v: MasterRequestView) -> bool {
    match v {
        MasterRequestView::Register { worker_addr } => wf_string_elem(worker_addr),
        MasterRequestView::Heartbeat { worker_addr } => wf_string_elem(worker_addr),
        MasterRequestView::GetWorkers => true,
    }
}

/// The byte encoding of a `MasterRequest`: a tag byte, then the fields.
pub open spec fn spec_enc_master_request(v: MasterRequestView) -> Seq<u8> {
    match v {
        MasterRequestView::Register { worker_addr } => seq![1u8] + spec_lp_string(worker_addr),
        MasterRequestView::Heartbeat { worker_addr } => seq![2u8] + spec_lp_string(worker_addr),
        MasterRequestView::GetWorkers => seq![3u8],
    }
}

/// Parse a whole buffer as a `MasterRequest`; trailing bytes are refused.
pub open spec fn spec_dec_master_request(b: Seq<u8>) -> Option<MasterRequestView> {
    match spec_take_u8(b, 0) {
        None => None,
        Some((tag, p0)) => {
            if tag == 1 {
                match spec_take_string(b, p0) {
                    None => None,
                    Some((worker_addr, p1)) => {
                        if p1 == b.len() {
                            Some(MasterRequestView::Register { worker_addr })
                        } else {
                            None
                        }
                    },
                }
            } else if tag == 2 {
                match spec_take_string(b, p0) {
                    None => None,
                    Some((worker_addr, p1)) => {
                        if p1 == b.len() {
                            Some(MasterRequestView::Heartbeat { worker_addr })
                        } else {
                            None
                        }
                    },
                }
            } else if tag == 3 {
                if p0 == b.len() {
                    Some(MasterRequestView::GetWorkers)
                } else {
                    None
                }
            } else {
                None
            }
        },
    }
}

/// Encode a `MasterRequest` to bytes.
pub fn encode_master_request(m: &MasterRequest) -> (r: Vec<u8>)
    ensures
        r@ == spec_enc_master_request(m@),
{
    let mut out: Vec<u8> = Vec::new();
    match m {
        MasterRequest::Worker(WorkerToMaster::Register { worker_addr }) => {
            put_u8(&mut out, 1);
            put_string(&mut out, worker_addr);
            assert(out@ =~= spec_enc_master_request(m@));
        },
        MasterRequest::Worker(WorkerToMaster::Heartbeat { worker_addr }) => {
            put_u8(&mut out, 2);
            put_string(&mut out, worker_addr);
            assert(out@ =~= spec_enc_master_request(m@));
        },
        MasterRequest::Driver(DriverToMaster::GetWorkers) => {
            put_u8(&mut out, 3);
            assert(out@ =~= spec_enc_master_request(m@));
        },
    }
    out
}

/// Decode a `MasterRequest` from a whole buffer.
pub fn decode_master_request(b: &Vec<u8>) -> (r: Option<MasterRequest>)
    ensures
        match r {
            Some(m) => spec_dec_master_request(b@) == Some(m@),
            None => spec_dec_master_request(b@) is None,
        },
{
    match take_u8(b, 0) {
        None => None,
        Some((tag, p0)) => {
            if tag == 1 {
                match take_string(b, p0) {
                    None => None,
                    Some((worker_addr, p1)) => {
                        if p1 == b.len() {
                            Some(MasterRequest::Worker(WorkerToMaster::Register { worker_addr }))
                        } else {
                            None
                        }
                    },
                }
            } else if tag == 2 {
                match take_string(b, p0) {
                    None => None,
                    Some((worker_addr, p1)) => {
                        if p1 == b.len() {
                            Some(MasterRequest::Worker(WorkerToMaster::Heartbeat { worker_addr }))
                        } else {
                            None
                        }
                    },
                }
            } else if tag == 3 {
                if p0 == b.len() {
                    Some(MasterRequest::Driver(DriverToMaster::GetWorkers))
                } else {
                    None
                }
            } else {
                None
            }
        },
    }
}

/// The codec inverts itself: decoding an encoded `MasterRequest` gives the
/// request back.
pub proof fn lemma_roundtrip_master_request(v: MasterRequestView)
    requires
        wf_master_request(v),
    ensures
        spec_dec_master_request(spec_enc_master_request(v)) == Some(v),
{
    let b = spec_enc_master_request(v);
    lemma_auto_spec_u64_to_from_le_bytes();
    match v {
        MasterRequestView::Register { worker_addr } => {
            let e0 = spec_lp_string(worker_addr);
            assert(b == seq![1u8] + e0);
            assert(b.subrange(0, 1) =~= seq![1u8]);
            lemma_take_u8(b, 0, 1u8);
            assert(b.subrange(1, 1 + e0.len() as int) =~= e0) by {
                assert forall|j: int| 0 <= j < e0.len() implies b[1 + j] == e0[j] by {}
            }
            lemma_take_string(b, 1, worker_addr);
            assert(spec_dec_master_request(b) == Some(v));
        },
        MasterRequestView::Heartbeat { worker_addr } => {
            let e0 = spec_lp_string(worker_addr);
            assert(b == seq![2u8] + e0);
            assert(b.subrange(0, 1) =~= seq![2u8]);
            lemma_take_u8(b, 0, 2u8);
            assert(b.subrange(1, 1 + e0.len() as int) =~= e0) by {
                assert forall|j: int| 0 <= j < e0.len() implies b[1 + j] == e0[j] by {}
            }
            lemma_take_string(b, 1, worker_addr);
            assert(spec_dec_master_request(b) == Some(v));
        },
        MasterRequestView::GetWorkers => {
            assert(b.subrange(0, 1) =~= seq![3u8]);
            lemma_take_u8(b, 0, 3u8);
            assert(spec_dec_master_request(b) == Some(v));
        },
    }
}

} // verus!
