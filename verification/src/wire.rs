//! Byte-level encoding primitives for the wire protocol and the state store.
//!
//! Every value crosses a connection as a self-describing byte string built
//! from a small set of primitives: little-endian 64-bit integers,
//! length-prefixed byte strings, and counted lists. Frames around whole
//! messages carry a big-endian 32-bit length, as the framing layer expects.
//! Each exec function mirrors a spec function exactly, and round-trip lemmas
//! connect the writers to the readers.

use vstd::prelude::*;
use vstd::bytes::*;
use vstd::utf8::{valid_utf8, decode_utf8, encode_utf8};
use vstd::slice::slice_to_vec;
use vstd::string::StringSliceAdditionalSpecFns;

verus! {

// ---------------------------------------------------------------------------
// Spec-level encoders
// ---------------------------------------------------------------------------

/// Encoding of a byte string: a 64-bit little-endian length, then the bytes.
pub open spec fn spec_lp_bytes(s: Seq<u8>) -> Seq<u8> {
    spec_u64_to_le_bytes(s.len() as u64) + s
}

/// Encoding of a character string: its UTF-8 bytes, length-prefixed.
pub open spec fn spec_lp_string(s: Seq<char>) -> Seq<u8> {
    spec_lp_bytes(encode_utf8(s))
}

/// Encoding of a boolean: one byte, zero or one.
pub open spec fn spec_enc_bool(b: bool) -> Seq<u8> {
    if b {
        seq![1u8]
    } else {
        seq![0u8]
    }
}

/// Encoding of a big-endian 32-bit length, used by the frame layer.
pub open spec fn spec_u32_be(x: u32) -> Seq<u8> {
    seq![
        ((x >> 24) & 0xff) as u8,
        ((x >> 16) & 0xff) as u8,
        ((x >> 8) & 0xff) as u8,
        (x & 0xff) as u8,
    ]
}

/// A whole frame: big-endian 32-bit payload length, then the payload.
pub open spec fn spec_frame(payload: Seq<u8>) -> Seq<u8> {
    spec_u32_be(payload.len() as u32) + payload
}

// ---------------------------------------------------------------------------
// Spec-level readers. Each takes the buffer and a position and yields the
// parsed value with the next position, or nothing when the bytes do not
// carry a value of the expected shape.
// ---------------------------------------------------------------------------

pub open spec fn spec_take_u8(b: Seq<u8>, pos: int) -> Option<(u8, int)> {
    if 0 <= pos && pos + 1 <= b.len() {
        Some((b[pos], pos + 1))
    } else {
        None
    }
}

pub open spec fn spec_take_bool(b: Seq<u8>, pos: int) -> Option<(bool, int)> {
    match spec_take_u8(b, pos) {
        Some((x, p)) => if x == 0 {
            Some((false, p))
        } else if x == 1 {
            Some((true, p))
        } else {
            None
        },
        None => None,
    }
}

pub open spec fn spec_take_u64(b: Seq<u8>, pos: int) -> Option<(u64, int)> {
    if 0 <= pos && pos + 8 <= b.len() {
        Some((spec_u64_from_le_bytes(b.subrange(pos, pos + 8)), pos + 8))
    } else {
        None
    }
}

pub open spec fn spec_take_bytes(b: Seq<u8>, pos: int) -> Option<(Seq<u8>, int)> {
    match spec_take_u64(b, pos) {
        Some((n, p)) => if p + n <= b.len() {
            Some((b.subrange(p, p + n), p + n))
        } else {
            None
        },
        None => None,
    }
}

pub open spec fn spec_take_string(b: Seq<u8>, pos: int) -> Option<(Seq<char>, int)> {
    match spec_take_bytes(b, pos) {
        Some((s, p)) => if valid_utf8(s) {
            Some((decode_utf8(s), p))
        } else {
            None
        },
        None => None,
    }
}

// ---------------------------------------------------------------------------
// Exec writers
// ---------------------------------------------------------------------------

pub fn put_u8(out: &mut Vec<u8>, v: u8)
    ensures
        final(out)@ == old(out)@ + seq![v],
{
    out.push(v);
}

pub fn put_bool(out: &mut Vec<u8>, v: bool)
    ensures
        final(out)@ == old(out)@ + spec_enc_bool(v),
{
    if v {
        out.push(1u8);
    } else {
        out.push(0u8);
    }
    assert(out@ =~= old(out)@ + spec_enc_bool(v));
}

pub fn put_u64(out: &mut Vec<u8>, v: u64)
    ensures
        final(out)@ == old(out)@ + spec_u64_to_le_bytes(v),
{
    let mut enc = u64_to_le_bytes(v);
    out.append(&mut enc);
}

pub fn put_bytes(out: &mut Vec<u8>, b: &Vec<u8>)
    ensures
        final(out)@ == old(out)@ + spec_lp_bytes(b@),
{
    put_u64(out, b.len() as u64);
    let mut copy = b.clone();
    out.append(&mut copy);
    assert(out@ =~= old(out)@ + spec_lp_bytes(b@));
}

pub fn put_string(out: &mut Vec<u8>, s: &String)
    ensures
        final(out)@ == old(out)@ + spec_lp_string(s@),
{
    let bytes = s.as_str().as_bytes_vec();
    put_bytes(out, &bytes);
}

/// Wrap a payload in a frame: big-endian 32-bit length, then the payload.
pub fn encode_frame(payload: &Vec<u8>) -> (r: Vec<u8>)
    requires
        payload@.len() <= u32::MAX,
    ensures
        r@ == spec_frame(payload@),
{
    let n = payload.len() as u32;
    let mut out: Vec<u8> = Vec::new();
    out.push(((n >> 24) & 0xff) as u8);
    out.push(((n >> 16) & 0xff) as u8);
    out.push(((n >> 8) & 0xff) as u8);
    out.push((n & 0xff) as u8);
    let mut copy = payload.clone();
    out.append(&mut copy);
    assert(out@ =~= spec_frame(payload@));
    out
}

// ---------------------------------------------------------------------------
// Exec readers, each mirroring its spec reader exactly
// ---------------------------------------------------------------------------

pub fn take_u8(b: &Vec<u8>, pos: usize) -> (r: Option<(u8, usize)>)
    ensures
        match r {
            Some((v, p)) => spec_take_u8(b@, pos as int) == Some((v, p as int)),
            None => spec_take_u8(b@, pos as int) is None,
        },
{
    if pos < b.len() {
        Some((b[pos], pos + 1))
    } else {
        None
    }
}

pub fn take_bool(b: &Vec<u8>, pos: usize) -> (r: Option<(bool, usize)>)
    ensures
        match r {
            Some((v, p)) => spec_take_bool(b@, pos as int) == Some((v, p as int)),
            None => spec_take_bool(b@, pos as int) is None,
        },
{
    match take_u8(b, pos) {
        Some((x, p)) => {
            if x == 0 {
                Some((false, p))
            } else if x == 1 {
                Some((true, p))
            } else {
                None
            }
        },
        None => None,
    }
}

pub fn take_u64(b: &Vec<u8>, pos: usize) -> (r: Option<(u64, usize)>)
    ensures
        match r {
            Some((v, p)) => spec_take_u64(b@, pos as int) == Some((v, p as int)),
            None => spec_take_u64(b@, pos as int) is None,
        },
{
    if pos <= b.len() && b.len() - pos >= 8 {
        let chunk = copy_range(b, pos, pos + 8);
        let v = u64_from_le_bytes(chunk.as_slice());
        Some((v, pos + 8))
    } else {
        None
    }
}

pub fn take_bytes(b: &Vec<u8>, pos: usize) -> (r: Option<(Vec<u8>, usize)>)
    ensures
        match r {
            Some((v, p)) => spec_take_bytes(b@, pos as int) == Some((v@, p as int)),
            None => spec_take_bytes(b@, pos as int) is None,
        },
{
    match take_u64(b, pos) {
        Some((n, p)) => {
            if n <= (b.len() - p) as u64 {
                let len = n as usize;
                let chunk = copy_range(b, p, p + len);
                Some((chunk, p + len))
            } else {
                None
            }
        },
        None => None,
    }
}

pub fn take_string(b: &Vec<u8>, pos: usize) -> (r: Option<(String, usize)>)
    ensures
        match r {
            Some((v, p)) => spec_take_string(b@, pos as int) == Some((v@, p as int)),
            None => spec_take_string(b@, pos as int) is None,
        },
{
    match take_bytes(b, pos) {
        Some((raw, p)) => {
            let ghost raw_seq = raw@;
            match bytes_to_string(raw) {
                Some(s) => {
                    proof {
                        vstd::utf8::decode_utf8_encode_utf8(raw_seq);
                        assert(decode_utf8(raw_seq) == s@) by {
                            vstd::utf8::encode_utf8_decode_utf8(s@);
                        }
                    }
                    Some((s, p))
                },
                None => None,
            }
        },
        None => None,
    }
}

/// Copy `b[start..end]` into a fresh vector.
pub fn copy_range(b: &Vec<u8>, start: usize, end: usize) -> (r: Vec<u8>)
    requires
        start <= end <= b@.len(),
    ensures
        r@ == b@.subrange(start as int, end as int),
{
    slice_to_vec(&b.as_slice()[start..end])
}

/// Relies on `String::from_utf8`: it succeeds exactly on valid UTF-8 input
/// and the returned string is backed by exactly the given bytes.
#[verifier::external_body]
fn bytes_to_string(v: Vec<u8>) -> (r: Option<String>)
    ensures
        match r {
            Some(s) => encode_utf8(s@) == v@ && valid_utf8(v@),
            None => !valid_utf8(v@),
        },
{
    String::from_utf8(v).ok()
}

// ---------------------------------------------------------------------------
// Round-trip lemmas: reading at the position where a writer put a value
// yields that value back.
// ---------------------------------------------------------------------------

pub proof fn lemma_take_u8(b: Seq<u8>, pos: int, v: u8)
    requires
        0 <= pos,
        pos + 1 <= b.len(),
        b.subrange(pos, pos + 1) == seq![v],
    ensures
        spec_take_u8(b, pos) == Some((v, pos + 1)),
{
    assert(b[pos] == b.subrange(pos, pos + 1)[0]);
}

pub proof fn lemma_take_bool(b: Seq<u8>, pos: int, v: bool)
    requires
        0 <= pos,
        pos + 1 <= b.len(),
        b.subrange(pos, pos + 1) == spec_enc_bool(v),
    ensures
        spec_take_bool(b, pos) == Some((v, pos + 1)),
{
    let x: u8 = if v { 1 } else { 0 };
    lemma_take_u8(b, pos, x);
}

pub proof fn lemma_take_u64(b: Seq<u8>, pos: int, v: u64)
    requires
        0 <= pos,
        pos + 8 <= b.len(),
        b.subrange(pos, pos + 8) == spec_u64_to_le_bytes(v),
    ensures
        spec_take_u64(b, pos) == Some((v, pos + 8)),
{
    lemma_auto_spec_u64_to_from_le_bytes();
}

pub proof fn lemma_take_bytes(b: Seq<u8>, pos: int, s: Seq<u8>)
    requires
        0 <= pos,
        s.len() <= u64::MAX,
        pos + spec_lp_bytes(s).len() <= b.len(),
        b.subrange(pos, pos + spec_lp_bytes(s).len()) == spec_lp_bytes(s),
    ensures
        spec_take_bytes(b, pos) == Some((s, pos + spec_lp_bytes(s).len())),
{
    lemma_auto_spec_u64_to_from_le_bytes();
    let n = s.len() as u64;
    let lp = spec_lp_bytes(s);
    assert(lp.len() == 8 + s.len());
    assert(b.subrange(pos, pos + 8) =~= lp.subrange(0, 8));
    assert(lp.subrange(0, 8) =~= spec_u64_to_le_bytes(n));
    lemma_take_u64(b, pos, n);
    assert forall|i: int| 0 <= i < s.len() implies b[pos + 8 + i] == s[i] by {
        assert(b.subrange(pos, pos + lp.len())[8 + i] == b[pos + 8 + i]);
        assert(lp[8 + i] == s[i]);
    }
    assert(b.subrange(pos + 8, pos + 8 + s.len() as int) =~= s);
}

pub proof fn lemma_take_string(b: Seq<u8>, pos: int, s: Seq<char>)
    requires
        0 <= pos,
        encode_utf8(s).len() <= u64::MAX,
        pos + spec_lp_string(s).len() <= b.len(),
        b.subrange(pos, pos + spec_lp_string(s).len()) == spec_lp_string(s),
    ensures
        spec_take_string(b, pos) == Some((s, pos + spec_lp_string(s).len())),
{
    lemma_take_bytes(b, pos, encode_utf8(s));
    vstd::utf8::encode_utf8_valid_utf8(s);
    vstd::utf8::encode_utf8_decode_utf8(s);
}

/// Reading back a frame: the payload length is recovered from the big-endian
/// prefix.
pub proof fn lemma_u32_be_roundtrip(x: u32)
    ensures
        spec_u32_be(x).len() == 4,
        spec_u32_from_be(spec_u32_be(x)) == x,
{
    let s = spec_u32_be(x);
    assert((((((x >> 24) & 0xff) as u8) as u32) << 24 | ((((x >> 16) & 0xff) as u8) as u32) << 16
        | ((((x >> 8) & 0xff) as u8) as u32) << 8 | (((x & 0xff) as u8) as u32)) == x)
        by (bit_vector);
    assert(s[0] == ((x >> 24) & 0xff) as u8);
    assert(s[1] == ((x >> 16) & 0xff) as u8);
    assert(s[2] == ((x >> 8) & 0xff) as u8);
    assert(s[3] == (x & 0xff) as u8);
}

/// The 32-bit value carried by four big-endian bytes.
pub open spec fn spec_u32_from_be(s: Seq<u8>) -> u32
    recommends
        s.len() == 4,
{
    (s[0] as u32) << 24 | (s[1] as u32) << 16 | (s[2] as u32) << 8 | (s[3] as u32)
}

/// Read a frame header: the payload length announced by the first four bytes.
pub fn frame_payload_len(header: &Vec<u8>) -> (r: u32)
    requires
        header@.len() == 4,
    ensures
        r == spec_u32_from_be(header@),
{
    let b0 = header[0] as u32;
    let b1 = header[1] as u32;
    let b2 = header[2] as u32;
    let b3 = header[3] as u32;
    let r = (b0 << 24) | (b1 << 16) | (b2 << 8) | b3;
    assert(r == spec_u32_from_be(header@)) by {
        assert((b0 << 24 | b1 << 16 | b2 << 8 | b3) == (b0 << 24) | (b1 << 16) | (b2 << 8)
            | b3) by (bit_vector);
    }
    r
}

} // verus!
// ---------------------------------------------------------------------------
// Counted lists: a 64-bit little-endian count, then each element in turn.
// The element encodings and parsers are passed as spec closures, so one
// definition serves byte strings, pairs, triples and nested lists alike.
// ---------------------------------------------------------------------------

verus! {

/// The elements of a list, encoded one after the other.
pub open spec fn spec_enc_items<T>(l: Seq<T>, f: spec_fn(T) -> Seq<u8>) -> Seq<u8>
    decreases l.len(),
{
    if l.len() == 0 {
        Seq::<u8>::empty()
    } else {
        f(l[0]) + spec_enc_items(l.drop_first(), f)
    }
}

/// A counted list: the element count, then the encoded elements.
pub open spec fn spec_enc_list<T>(l: Seq<T>, f: spec_fn(T) -> Seq<u8>) -> Seq<u8> {
    spec_u64_to_le_bytes(l.len() as u64) + spec_enc_items(l, f)
}

/// Parse exactly `n` elements with the element parser `g`.
pub open spec fn spec_take_n_items<T>(
    b: Seq<u8>,
    pos: int,
    n: nat,
    g: spec_fn(Seq<u8>, int) -> Option<(T, int)>,
) -> Option<(Seq<T>, int)>
    decreases n,
{
    if n == 0 {
        Some((Seq::<T>::empty(), pos))
    } else {
        match g(b, pos) {
            Some((v, p)) => match spec_take_n_items(b, p, (n - 1) as nat, g) {
                Some((rest, p2)) => Some((seq![v] + rest, p2)),
                None => None,
            },
            None => None,
        }
    }
}

/// Parse a counted list: the count, then that many elements.
pub open spec fn spec_take_list<T>(
    b: Seq<u8>,
    pos: int,
    g: spec_fn(Seq<u8>, int) -> Option<(T, int)>,
) -> Option<(Seq<T>, int)> {
    match spec_take_u64(b, pos) {
        Some((n, p)) => spec_take_n_items(b, p, n as nat, g),
        None => None,
    }
}

/// Appending one more element to the encoded prefix of a list.
pub proof fn lemma_enc_items_push<T>(l: Seq<T>, f: spec_fn(T) -> Seq<u8>, i: int)
    requires
        0 <= i < l.len(),
    ensures
        spec_enc_items(l.take(i + 1), f) == spec_enc_items(l.take(i), f) + f(l[i]),
    decreases i,
{
    if i == 0 {
        let l1 = l.take(1);
        assert(l1.len() == 1);
        assert(l1[0] == l[0]);
        assert(l1.drop_first() =~= Seq::<T>::empty());
        assert(spec_enc_items(l1.drop_first(), f) =~= Seq::<u8>::empty());
        assert(spec_enc_items(l.take(0), f) =~= Seq::<u8>::empty());
        assert(spec_enc_items(l1, f) == f(l1[0]) + spec_enc_items(l1.drop_first(), f));
        assert(spec_enc_items(l.take(1), f) =~= spec_enc_items(l.take(0), f) + f(l[0]));
    } else {
        lemma_enc_items_push(l.drop_first(), f, i - 1);
        assert(l.take(i + 1).drop_first() =~= l.drop_first().take(i));
        assert(l.take(i).drop_first() =~= l.drop_first().take(i - 1));
        assert(l.take(i + 1)[0] == l[0]);
        assert(l.take(i)[0] == l[0]);
        assert(l.drop_first()[i - 1] == l[i]);
        assert(spec_enc_items(l.take(i + 1), f) == f(l[0]) + spec_enc_items(
            l.drop_first().take(i),
            f,
        ));
        assert(f(l[0]) + (spec_enc_items(l.drop_first().take(i - 1), f) + f(l[i])) =~= (f(l[0])
            + spec_enc_items(l.drop_first().take(i - 1), f)) + f(l[i]));
    }
}

/// The whole list is its own `take`.
pub proof fn lemma_enc_items_all<T>(l: Seq<T>, f: spec_fn(T) -> Seq<u8>)
    ensures
        spec_enc_items(l.take(l.len() as int), f) == spec_enc_items(l, f),
{
    assert(l.take(l.len() as int) =~= l);
}

/// Reading `n` elements back from where `spec_enc_items` put them, given
/// that the element parser reads each element back from its own encoding.
pub proof fn lemma_take_n_items<T>(
    b: Seq<u8>,
    pos: int,
    l: Seq<T>,
    f: spec_fn(T) -> Seq<u8>,
    g: spec_fn(Seq<u8>, int) -> Option<(T, int)>,
)
    requires
        0 <= pos,
        pos + spec_enc_items(l, f).len() <= b.len(),
        b.subrange(pos, pos + spec_enc_items(l, f).len()) == spec_enc_items(l, f),
        forall|pp: int, i: int|
            #![trigger g(b, pp), f(l[i])]
            0 <= i < l.len() && 0 <= pp && pp + f(l[i]).len() <= b.len() && b.subrange(
                pp,
                pp + f(l[i]).len(),
            ) == f(l[i]) ==> g(b, pp) == Some((l[i], pp + f(l[i]).len())),
    ensures
        spec_take_n_items(b, pos, l.len(), g) == Some((l, pos + spec_enc_items(l, f).len())),
    decreases l.len(),
{
    if l.len() == 0 {
        assert(spec_take_n_items(b, pos, 0, g) == Some((Seq::<T>::empty(), pos)));
        assert(l =~= Seq::<T>::empty());
    } else {
        let e0 = f(l[0]);
        let items = spec_enc_items(l, f);
        let rest_items = spec_enc_items(l.drop_first(), f);
        assert(items == e0 + rest_items);
        assert(b.subrange(pos, pos + e0.len() as int) =~= e0) by {
            assert forall|j: int| 0 <= j < e0.len() implies b[pos + j] == e0[j] by {
                assert(b.subrange(pos, pos + items.len())[j] == b[pos + j]);
                assert(items[j] == e0[j]);
            }
        }
        assert(g(b, pos) == Some((l[0], pos + e0.len())));
        let p1 = pos + e0.len();
        assert(b.subrange(p1, p1 + rest_items.len() as int) =~= rest_items) by {
            assert forall|j: int| 0 <= j < rest_items.len() implies b[p1 + j] == rest_items[j] by {
                assert(b.subrange(pos, pos + items.len())[e0.len() + j] == b[p1 + j]);
                assert(items[e0.len() + j] == rest_items[j]);
            }
        }
        assert forall|pp: int, i: int|
            #![trigger g(b, pp), f(l.drop_first()[i])]
            0 <= i < l.drop_first().len() && 0 <= pp && pp + f(l.drop_first()[i]).len() <= b.len()
                && b.subrange(pp, pp + f(l.drop_first()[i]).len()) == f(l.drop_first()[i])
            implies g(b, pp) == Some((l.drop_first()[i], pp + f(l.drop_first()[i]).len())) by {
            assert(l.drop_first()[i] == l[i + 1]);
        }
        lemma_take_n_items(b, p1, l.drop_first(), f, g);
        assert(seq![l[0]] + l.drop_first() =~= l);
    }
}

/// Reading a counted list back from where `spec_enc_list` put it.
pub proof fn lemma_take_list<T>(
    b: Seq<u8>,
    pos: int,
    l: Seq<T>,
    f: spec_fn(T) -> Seq<u8>,
    g: spec_fn(Seq<u8>, int) -> Option<(T, int)>,
)
    requires
        0 <= pos,
        l.len() <= u64::MAX,
        pos + spec_enc_list(l, f).len() <= b.len(),
        b.subrange(pos, pos + spec_enc_list(l, f).len()) == spec_enc_list(l, f),
        forall|pp: int, i: int|
            #![trigger g(b, pp), f(l[i])]
            0 <= i < l.len() && 0 <= pp && pp + f(l[i]).len() <= b.len() && b.subrange(
                pp,
                pp + f(l[i]).len(),
            ) == f(l[i]) ==> g(b, pp) == Some((l[i], pp + f(l[i]).len())),
    ensures
        spec_take_list(b, pos, g) == Some((l, pos + spec_enc_list(l, f).len())),
{
    lemma_auto_spec_u64_to_from_le_bytes();
    let n = l.len() as u64;
    let whole = spec_enc_list(l, f);
    let items = spec_enc_items(l, f);
    assert(whole.len() == 8 + items.len());
    assert(b.subrange(pos, pos + 8) =~= spec_u64_to_le_bytes(n)) by {
        assert forall|j: int| 0 <= j < 8 implies b[pos + j] == spec_u64_to_le_bytes(n)[j] by {
            assert(b.subrange(pos, pos + whole.len())[j] == b[pos + j]);
            assert(whole[j] == spec_u64_to_le_bytes(n)[j]);
        }
    }
    lemma_take_u64(b, pos, n);
    let p1 = pos + 8;
    assert(b.subrange(p1, p1 + items.len() as int) =~= items) by {
        assert forall|j: int| 0 <= j < items.len() implies b[p1 + j] == items[j] by {
            assert(b.subrange(pos, pos + whole.len())[8 + j] == b[p1 + j]);
            assert(whole[8 + j] == items[j]);
        }
    }
    lemma_take_n_items(b, p1, l, f, g);
}

} // verus!
// ---------------------------------------------------------------------------
// Concrete element shapes used by the protocol: byte strings, vertex pairs,
// edge triples, inbox entries, and character strings.
// ---------------------------------------------------------------------------

verus! {

pub open spec fn bytes_enc() -> spec_fn(Seq<u8>) -> Seq<u8> {
    |s: Seq<u8>| spec_lp_bytes(s)
}

pub open spec fn bytes_parser() -> spec_fn(Seq<u8>, int) -> Option<(Seq<u8>, int)> {
    |b: Seq<u8>, pos: int| spec_take_bytes(b, pos)
}

pub open spec fn pair_enc() -> spec_fn((Seq<u8>, Seq<u8>)) -> Seq<u8> {
    |p: (Seq<u8>, Seq<u8>)| spec_lp_bytes(p.0) + spec_lp_bytes(p.1)
}

pub open spec fn pair_parser() -> spec_fn(Seq<u8>, int) -> Option<((Seq<u8>, Seq<u8>), int)> {
    |b: Seq<u8>, pos: int|
        match spec_take_bytes(b, pos) {
            Some((a, p)) => match spec_take_bytes(b, p) {
                Some((c, p2)) => Some(((a, c), p2)),
                None => None,
            },
            None => None,
        }
}

pub open spec fn triple_enc() -> spec_fn((Seq<u8>, Seq<u8>, Seq<u8>)) -> Seq<u8> {
    |t: (Seq<u8>, Seq<u8>, Seq<u8>)| spec_lp_bytes(t.0) + spec_lp_bytes(t.1) + spec_lp_bytes(t.2)
}

pub open spec fn triple_parser() -> spec_fn(Seq<u8>, int) -> Option<
    ((Seq<u8>, Seq<u8>, Seq<u8>), int),
> {
    |b: Seq<u8>, pos: int|
        match spec_take_bytes(b, pos) {
            Some((a, p)) => match spec_take_bytes(b, p) {
                Some((c, p2)) => match spec_take_bytes(b, p2) {
                    Some((d, p3)) => Some(((a, c, d), p3)),
                    None => None,
                },
                None => None,
            },
            None => None,
        }
}

/// An inbox entry: a target vertex id and the messages routed to it.
pub open spec fn entry_enc() -> spec_fn((Seq<u8>, Seq<Seq<u8>>)) -> Seq<u8> {
    |e: (Seq<u8>, Seq<Seq<u8>>)| spec_lp_bytes(e.0) + spec_enc_list(e.1, bytes_enc())
}

pub open spec fn entry_parser() -> spec_fn(Seq<u8>, int) -> Option<((Seq<u8>, Seq<Seq<u8>>), int)> {
    |b: Seq<u8>, pos: int|
        match spec_take_bytes(b, pos) {
            Some((a, p)) => match spec_take_list(b, p, bytes_parser()) {
                Some((msgs, p2)) => Some(((a, msgs), p2)),
                None => None,
            },
            None => None,
        }
}

pub open spec fn string_enc() -> spec_fn(Seq<char>) -> Seq<u8> {
    |s: Seq<char>| spec_lp_string(s)
}

pub open spec fn string_parser() -> spec_fn(Seq<u8>, int) -> Option<(Seq<char>, int)> {
    |b: Seq<u8>, pos: int| spec_take_string(b, pos)
}

// Views of the exec-side lists as their mathematical counterparts.

pub open spec fn view_byte_list(v: Seq<Vec<u8>>) -> Seq<Seq<u8>> {
    v.map_values(|x: Vec<u8>| x@)
}

pub open spec fn view_pair_list(v: Seq<(Vec<u8>, Vec<u8>)>) -> Seq<(Seq<u8>, Seq<u8>)> {
    v.map_values(|p: (Vec<u8>, Vec<u8>)| (p.0@, p.1@))
}

pub open spec fn view_triple_list(v: Seq<(Vec<u8>, Vec<u8>, Vec<u8>)>) -> Seq<
    (Seq<u8>, Seq<u8>, Seq<u8>),
> {
    v.map_values(|t: (Vec<u8>, Vec<u8>, Vec<u8>)| (t.0@, t.1@, t.2@))
}

pub open spec fn view_entry_list(v: Seq<(Vec<u8>, Vec<Vec<u8>>)>) -> Seq<(Seq<u8>, Seq<Seq<u8>>)> {
    v.map_values(|e: (Vec<u8>, Vec<Vec<u8>>)| (e.0@, view_byte_list(e.1@)))
}

pub open spec fn view_string_list(v: Seq<String>) -> Seq<Seq<char>> {
    v.map_values(|s: String| s@)
}

} // verus!
// ---------------------------------------------------------------------------
// Exec writers for the list shapes
// ---------------------------------------------------------------------------

verus! {

pub fn put_byte_list(out: &mut Vec<u8>, l: &Vec<Vec<u8>>)
    ensures
        final(out)@ == old(out)@ + spec_enc_list(view_byte_list(l@), bytes_enc()),
{
    put_u64(out, l.len() as u64);
    let ghost base = out@;
    let ghost lv = view_byte_list(l@);
    let n = l.len();
    let mut i: usize = 0;
    while i < n
        invariant
            i <= n,
            n == l@.len(),
            lv == view_byte_list(l@),
            out@ == base + spec_enc_items(lv.take(i as int), bytes_enc()),
        decreases n - i,
    {
        put_bytes(out, &l[i]);
        proof {
            lemma_enc_items_push(lv, bytes_enc(), i as int);
            assert(lv[i as int] == l@[i as int]@);
            assert(base + spec_enc_items(lv.take(i as int), bytes_enc()) + spec_lp_bytes(
                l@[i as int]@,
            ) =~= base + spec_enc_items(lv.take(i + 1), bytes_enc()));
        }
        i += 1;
    }
    proof {
        lemma_enc_items_all(lv, bytes_enc());
        assert(old(out)@ + spec_enc_list(lv, bytes_enc()) =~= base + spec_enc_items(
            lv,
            bytes_enc(),
        ));
    }
}

pub fn put_pair_list(out: &mut Vec<u8>, l: &Vec<(Vec<u8>, Vec<u8>)>)
    ensures
        final(out)@ == old(out)@ + spec_enc_list(view_pair_list(l@), pair_enc()),
{
    put_u64(out, l.len() as u64);
    let ghost base = out@;
    let ghost lv = view_pair_list(l@);
    let n = l.len();
    let mut i: usize = 0;
    while i < n
        invariant
            i <= n,
            n == l@.len(),
            lv == view_pair_list(l@),
            out@ == base + spec_enc_items(lv.take(i as int), pair_enc()),
        decreases n - i,
    {
        put_bytes(out, &l[i].0);
        put_bytes(out, &l[i].1);
        proof {
            lemma_enc_items_push(lv, pair_enc(), i as int);
            assert(lv[i as int] == (l@[i as int].0@, l@[i as int].1@));
            assert(base + spec_enc_items(lv.take(i as int), pair_enc()) + spec_lp_bytes(
                l@[i as int].0@,
            ) + spec_lp_bytes(l@[i as int].1@) =~= base + spec_enc_items(
                lv.take(i + 1),
                pair_enc(),
            ));
        }
        i += 1;
    }
    proof {
        lemma_enc_items_all(lv, pair_enc());
        assert(old(out)@ + spec_enc_list(lv, pair_enc()) =~= base + spec_enc_items(
            lv,
            pair_enc(),
        ));
    }
}

pub fn put_triple_list(out: &mut Vec<u8>, l: &Vec<(Vec<u8>, Vec<u8>, Vec<u8>)>)
    ensures
        final(out)@ == old(out)@ + spec_enc_list(view_triple_list(l@), triple_enc()),
{
    put_u64(out, l.len() as u64);
    let ghost base = out@;
    let ghost lv = view_triple_list(l@);
    let n = l.len();
    let mut i: usize = 0;
    while i < n
        invariant
            i <= n,
            n == l@.len(),
            lv == view_triple_list(l@),
            out@ == base + spec_enc_items(lv.take(i as int), triple_enc()),
        decreases n - i,
    {
        put_bytes(out, &l[i].0);
        put_bytes(out, &l[i].1);
        put_bytes(out, &l[i].2);
        proof {
            lemma_enc_items_push(lv, triple_enc(), i as int);
            assert(lv[i as int] == (l@[i as int].0@, l@[i as int].1@, l@[i as int].2@));
            assert(base + spec_enc_items(lv.take(i as int), triple_enc()) + spec_lp_bytes(
                l@[i as int].0@,
            ) + spec_lp_bytes(l@[i as int].1@) + spec_lp_bytes(l@[i as int].2@) =~= base
                + spec_enc_items(lv.take(i + 1), triple_enc()));
        }
        i += 1;
    }
    proof {
        lemma_enc_items_all(lv, triple_enc());
        assert(old(out)@ + spec_enc_list(lv, triple_enc()) =~= base + spec_enc_items(
            lv,
            triple_enc(),
        ));
    }
}

pub fn put_entry_list(out: &mut Vec<u8>, l: &Vec<(Vec<u8>, Vec<Vec<u8>>)>)
    ensures
        final(out)@ == old(out)@ + spec_enc_list(view_entry_list(l@), entry_enc()),
{
    put_u64(out, l.len() as u64);
    let ghost base = out@;
    let ghost lv = view_entry_list(l@);
    let n = l.len();
    let mut i: usize = 0;
    while i < n
        invariant
            i <= n,
            n == l@.len(),
            lv == view_entry_list(l@),
            out@ == base + spec_enc_items(lv.take(i as int), entry_enc()),
        decreases n - i,
    {
        put_bytes(out, &l[i].0);
        put_byte_list(out, &l[i].1);
        proof {
            lemma_enc_items_push(lv, entry_enc(), i as int);
            assert(lv[i as int] == (l@[i as int].0@, view_byte_list(l@[i as int].1@)));
            assert(base + spec_enc_items(lv.take(i as int), entry_enc()) + spec_lp_bytes(
                l@[i as int].0@,
            ) + spec_enc_list(view_byte_list(l@[i as int].1@), bytes_enc()) =~= base
                + spec_enc_items(lv.take(i + 1), entry_enc()));
        }
        i += 1;
    }
    proof {
        lemma_enc_items_all(lv, entry_enc());
        assert(old(out)@ + spec_enc_list(lv, entry_enc()) =~= base + spec_enc_items(
            lv,
            entry_enc(),
        ));
    }
}

pub fn put_string_list(out: &mut Vec<u8>, l: &Vec<String>)
    ensures
        final(out)@ == old(out)@ + spec_enc_list(view_string_list(l@), string_enc()),
{
    put_u64(out, l.len() as u64);
    let ghost base = out@;
    let ghost lv = view_string_list(l@);
    let n = l.len();
    let mut i: usize = 0;
    while i < n
        invariant
            i <= n,
            n == l@.len(),
            lv == view_string_list(l@),
            out@ == base + spec_enc_items(lv.take(i as int), string_enc()),
        decreases n - i,
    {
        put_string(out, &l[i]);
        proof {
            lemma_enc_items_push(lv, string_enc(), i as int);
            assert(lv[i as int] == l@[i as int]@);
            assert(base + spec_enc_items(lv.take(i as int), string_enc()) + spec_lp_string(
                l@[i as int]@,
            ) =~= base + spec_enc_items(lv.take(i + 1), string_enc()));
        }
        i += 1;
    }
    proof {
        lemma_enc_items_all(lv, string_enc());
        assert(old(out)@ + spec_enc_list(lv, string_enc()) =~= base + spec_enc_items(
            lv,
            string_enc(),
        ));
    }
}

} // verus!
// ---------------------------------------------------------------------------
// Exec readers for the list shapes
// ---------------------------------------------------------------------------

verus! {

pub fn take_byte_list(b: &Vec<u8>, pos: usize) -> (r: Option<(Vec<Vec<u8>>, usize)>)
    ensures
        match r {
            Some((v, p)) => spec_take_list(b@, pos as int, bytes_parser()) == Some(
                (view_byte_list(v@), p as int),
            ),
            None => spec_take_list(b@, pos as int, bytes_parser()) is None,
        },
{
    match take_u64(b, pos) {
        None => None,
        Some((n, p0)) => {
            proof {
                assert(spec_take_list(b@, pos as int, bytes_parser()) == spec_take_n_items(
                    b@,
                    p0 as int,
                    n as nat,
                    bytes_parser(),
                ));
            }
            let mut acc: Vec<Vec<u8>> = Vec::new();
            let mut p = p0;
            let mut i: u64 = 0;
            proof {
                if spec_take_n_items(b@, p0 as int, n as nat, bytes_parser()) is Some {
                    let (rest, pe) = spec_take_n_items(
                        b@,
                        p0 as int,
                        n as nat,
                        bytes_parser(),
                    )->Some_0;
                    assert(view_byte_list(acc@) + rest =~= rest);
                }
            }
            loop
                invariant
                    i <= n,
                    i == acc@.len(),
                    spec_take_list(b@, pos as int, bytes_parser()) == spec_take_n_items(
                        b@,
                        p0 as int,
                        n as nat,
                        bytes_parser(),
                    ),
                    match spec_take_n_items(b@, p as int, (n - i) as nat, bytes_parser()) {
                        Some((rest, pend)) => spec_take_n_items(
                            b@,
                            p0 as int,
                            n as nat,
                            bytes_parser(),
                        ) == Some((view_byte_list(acc@) + rest, pend)),
                        None => spec_take_n_items(
                            b@,
                            p0 as int,
                            n as nat,
                            bytes_parser(),
                        ) is None,
                    },
                decreases n - i,
            {
                if i == n {
                    proof {
                        assert(spec_take_n_items(b@, p as int, 0, bytes_parser()) == Some(
                            (Seq::<Seq<u8>>::empty(), p as int),
                        ));
                        assert(view_byte_list(acc@) + Seq::<Seq<u8>>::empty() =~= view_byte_list(
                            acc@,
                        ));
                    }
                    return Some((acc, p));
                }
                match take_bytes(b, p) {
                    None => {
                        proof {
                            assert((bytes_parser())(b@, p as int) == spec_take_bytes(
                                b@,
                                p as int,
                            ));
                            assert(spec_take_n_items(
                                b@,
                                p as int,
                                (n - i) as nat,
                                bytes_parser(),
                            ) is None);
                        }
                        return None;
                    },
                    Some((item, p2)) => {
                        proof {
                            assert(view_byte_list(acc@.push(item)) =~= view_byte_list(acc@)
                                + seq![item@]);
                            assert((bytes_parser())(b@, p as int) == spec_take_bytes(
                                b@,
                                p as int,
                            ));
                            let k = (n - i) as nat;
                            let tail = spec_take_n_items(
                                b@,
                                p2 as int,
                                (k - 1) as nat,
                                bytes_parser(),
                            );
                            assert(spec_take_n_items(b@, p as int, k, bytes_parser())
                                == match tail {
                                Some((rest2, pe)) => Some((seq![item@] + rest2, pe)),
                                None => None,
                            });
                            if tail is Some {
                                let (rest2, pe) = tail->Some_0;
                                assert((view_byte_list(acc@) + (seq![item@] + rest2))
                                    =~= (view_byte_list(acc@) + seq![item@]) + rest2);
                            }
                        }
                        acc.push(item);
                        p = p2;
                        i = i + 1;
                    },
                }
            }
        },
    }
}

} // verus!

// Element readers for the composite shapes.

verus! {

pub fn take_pair(b: &Vec<u8>, pos: usize) -> (r: Option<((Vec<u8>, Vec<u8>), usize)>)
    ensures
        match r {
            Some((v, p)) => (pair_parser())(b@, pos as int) == Some(((v.0@, v.1@), p as int)),
            None => (pair_parser())(b@, pos as int) is None,
        },
{
    match take_bytes(b, pos) {
        None => None,
        Some((a, p)) => match take_bytes(b, p) {
            None => None,
            Some((c, p2)) => Some(((a, c), p2)),
        },
    }
}

pub fn take_triple(b: &Vec<u8>, pos: usize) -> (r: Option<((Vec<u8>, Vec<u8>, Vec<u8>), usize)>)
    ensures
        match r {
            Some((v, p)) => (triple_parser())(b@, pos as int) == Some(
                ((v.0@, v.1@, v.2@), p as int),
            ),
            None => (triple_parser())(b@, pos as int) is None,
        },
{
    match take_bytes(b, pos) {
        None => None,
        Some((a, p)) => match take_bytes(b, p) {
            None => None,
            Some((c, p2)) => match take_bytes(b, p2) {
                None => None,
                Some((d, p3)) => Some(((a, c, d), p3)),
            },
        },
    }
}

pub fn take_entry(b: &Vec<u8>, pos: usize) -> (r: Option<((Vec<u8>, Vec<Vec<u8>>), usize)>)
    ensures
        match r {
            Some((v, p)) => (entry_parser())(b@, pos as int) == Some(
                ((v.0@, view_byte_list(v.1@)), p as int),
            ),
            None => (entry_parser())(b@, pos as int) is None,
        },
{
    match take_bytes(b, pos) {
        None => None,
        Some((a, p)) => match take_byte_list(b, p) {
            None => None,
            Some((msgs, p2)) => Some(((a, msgs), p2)),
        },
    }
}

} // verus!

verus! {

pub fn take_pair_list(b: &Vec<u8>, pos: usize) -> (r: Option<(Vec<(Vec<u8>, Vec<u8>)>, usize)>)
    ensures
        match r {
            Some((v, p)) => spec_take_list(b@, pos as int, pair_parser()) == Some(
                (view_pair_list(v@), p as int),
            ),
            None => spec_take_list(b@, pos as int, pair_parser()) is None,
        },
{
    match take_u64(b, pos) {
        None => None,
        Some((n, p0)) => {
            proof {
                assert(spec_take_list(b@, pos as int, pair_parser()) == spec_take_n_items(
                    b@,
                    p0 as int,
                    n as nat,
                    pair_parser(),
                ));
            }
            let mut acc: Vec<(Vec<u8>, Vec<u8>)> = Vec::new();
            let mut p = p0;
            let mut i: u64 = 0;
            proof {
                if spec_take_n_items(b@, p0 as int, n as nat, pair_parser()) is Some {
                    let (rest, pe) = spec_take_n_items(
                        b@,
                        p0 as int,
                        n as nat,
                        pair_parser(),
                    )->Some_0;
                    assert(view_pair_list(acc@) + rest =~= rest);
                }
            }
            loop
                invariant
                    i <= n,
                    i == acc@.len(),
                    spec_take_list(b@, pos as int, pair_parser()) == spec_take_n_items(
                        b@,
                        p0 as int,
                        n as nat,
                        pair_parser(),
                    ),
                    match spec_take_n_items(b@, p as int, (n - i) as nat, pair_parser()) {
                        Some((rest, pend)) => spec_take_n_items(
                            b@,
                            p0 as int,
                            n as nat,
                            pair_parser(),
                        ) == Some((view_pair_list(acc@) + rest, pend)),
                        None => spec_take_n_items(b@, p0 as int, n as nat, pair_parser()) is None,
                    },
                decreases n - i,
            {
                if i == n {
                    proof {
                        assert(spec_take_n_items(b@, p as int, 0, pair_parser()) == Some(
                            (Seq::<(Seq<u8>, Seq<u8>)>::empty(), p as int),
                        ));
                        assert(view_pair_list(acc@) + Seq::<(Seq<u8>, Seq<u8>)>::empty() =~= view_pair_list(acc@));
                    }
                    return Some((acc, p));
                }
                match take_pair(b, p) {
                    None => {
                        return None;
                    },
                    Some((item, p2)) => {
                        proof {
                            assert(view_pair_list(acc@.push(item)) =~= view_pair_list(acc@) + seq![(item.0@, item.1@)]);
                            let k = (n - i) as nat;
                            let tail = spec_take_n_items(
                                b@,
                                p2 as int,
                                (k - 1) as nat,
                                pair_parser(),
                            );
                            assert(spec_take_n_items(b@, p as int, k, pair_parser()) == match tail {
                                Some((rest2, pe)) => Some((seq![(item.0@, item.1@)] + rest2, pe)),
                                None => None,
                            });
                            if tail is Some {
                                let (rest2, pe) = tail->Some_0;
                                assert((view_pair_list(acc@) + (seq![(item.0@, item.1@)] + rest2)) =~= (view_pair_list(acc@)
                                    + seq![(item.0@, item.1@)]) + rest2);
                            }
                        }
                        acc.push(item);
                        p = p2;
                        i = i + 1;
                    },
                }
            }
        },
    }
}

} // verus!

verus! {

pub fn take_triple_list(b: &Vec<u8>, pos: usize) -> (r: Option<(Vec<(Vec<u8>, Vec<u8>, Vec<u8>)>, usize)>)
    ensures
        match r {
            Some((v, p)) => spec_take_list(b@, pos as int, triple_parser()) == Some(
                (view_triple_list(v@), p as int),
            ),
            None => spec_take_list(b@, pos as int, triple_parser()) is None,
        },
{
    match take_u64(b, pos) {
        None => None,
        Some((n, p0)) => {
            proof {
                assert(spec_take_list(b@, pos as int, triple_parser()) == spec_take_n_items(
                    b@,
                    p0 as int,
                    n as nat,
                    triple_parser(),
                ));
            }
            let mut acc: Vec<(Vec<u8>, Vec<u8>, Vec<u8>)> = Vec::new();
            let mut p = p0;
            let mut i: u64 = 0;
            proof {
                if spec_take_n_items(b@, p0 as int, n as nat, triple_parser()) is Some {
                    let (rest, pe) = spec_take_n_items(
                        b@,
                        p0 as int,
                        n as nat,
                        triple_parser(),
                    )->Some_0;
                    assert(view_triple_list(acc@) + rest =~= rest);
                }
            }
            loop
                invariant
                    i <= n,
                    i == acc@.len(),
                    spec_take_list(b@, pos as int, triple_parser()) == spec_take_n_items(
                        b@,
                        p0 as int,
                        n as nat,
                        triple_parser(),
                    ),
                    match spec_take_n_items(b@, p as int, (n - i) as nat, triple_parser()) {
                        Some((rest, pend)) => spec_take_n_items(
                            b@,
                            p0 as int,
                            n as nat,
                            triple_parser(),
                        ) == Some((view_triple_list(acc@) + rest, pend)),
                        None => spec_take_n_items(b@, p0 as int, n as nat, triple_parser()) is None,
                    },
                decreases n - i,
            {
                if i == n {
                    proof {
                        assert(spec_take_n_items(b@, p as int, 0, triple_parser()) == Some(
                            (Seq::<(Seq<u8>, Seq<u8>, Seq<u8>)>::empty(), p as int),
                        ));
                        assert(view_triple_list(acc@) + Seq::<(Seq<u8>, Seq<u8>, Seq<u8>)>::empty() =~= view_triple_list(acc@));
                    }
                    return Some((acc, p));
                }
                match take_triple(b, p) {
                    None => {
                        return None;
                    },
                    Some((item, p2)) => {
                        proof {
                            assert(view_triple_list(acc@.push(item)) =~= view_triple_list(acc@) + seq![(item.0@, item.1@, item.2@)]);
                            let k = (n - i) as nat;
                            let tail = spec_take_n_items(
                                b@,
                                p2 as int,
                                (k - 1) as nat,
                                triple_parser(),
                            );
                            assert(spec_take_n_items(b@, p as int, k, triple_parser()) == match tail {
                                Some((rest2, pe)) => Some((seq![(item.0@, item.1@, item.2@)] + rest2, pe)),
                                None => None,
                            });
                            if tail is Some {
                                let (rest2, pe) = tail->Some_0;
                                assert((view_triple_list(acc@) + (seq![(item.0@, item.1@, item.2@)] + rest2)) =~= (view_triple_list(acc@)
                                    + seq![(item.0@, item.1@, item.2@)]) + rest2);
                            }
                        }
                        acc.push(item);
                        p = p2;
                        i = i + 1;
                    },
                }
            }
        },
    }
}

} // verus!

verus! {

pub fn take_entry_list(b: &Vec<u8>, pos: usize) -> (r: Option<(Vec<(Vec<u8>, Vec<Vec<u8>>)>, usize)>)
    ensures
        match r {
            Some((v, p)) => spec_take_list(b@, pos as int, entry_parser()) == Some(
                (view_entry_list(v@), p as int),
            ),
            None => spec_take_list(b@, pos as int, entry_parser()) is None,
        },
{
    match take_u64(b, pos) {
        None => None,
        Some((n, p0)) => {
            proof {
                assert(spec_take_list(b@, pos as int, entry_parser()) == spec_take_n_items(
                    b@,
                    p0 as int,
                    n as nat,
                    entry_parser(),
                ));
            }
            let mut acc: Vec<(Vec<u8>, Vec<Vec<u8>>)> = Vec::new();
            let mut p = p0;
            let mut i: u64 = 0;
            proof {
                if spec_take_n_items(b@, p0 as int, n as nat, entry_parser()) is Some {
                    let (rest, pe) = spec_take_n_items(
                        b@,
                        p0 as int,
                        n as nat,
                        entry_parser(),
                    )->Some_0;
                    assert(view_entry_list(acc@) + rest =~= rest);
                }
            }
            loop
                invariant
                    i <= n,
                    i == acc@.len(),
                    spec_take_list(b@, pos as int, entry_parser()) == spec_take_n_items(
                        b@,
                        p0 as int,
                        n as nat,
                        entry_parser(),
                    ),
                    match spec_take_n_items(b@, p as int, (n - i) as nat, entry_parser()) {
                        Some((rest, pend)) => spec_take_n_items(
                            b@,
                            p0 as int,
                            n as nat,
                            entry_parser(),
                        ) == Some((view_entry_list(acc@) + rest, pend)),
                        None => spec_take_n_items(b@, p0 as int, n as nat, entry_parser()) is None,
                    },
                decreases n - i,
            {
                if i == n {
                    proof {
                        assert(spec_take_n_items(b@, p as int, 0, entry_parser()) == Some(
                            (Seq::<(Seq<u8>, Seq<Seq<u8>>)>::empty(), p as int),
                        ));
                        assert(view_entry_list(acc@) + Seq::<(Seq<u8>, Seq<Seq<u8>>)>::empty() =~= view_entry_list(acc@));
                    }
                    return Some((acc, p));
                }
                match take_entry(b, p) {
                    None => {
                        return None;
                    },
                    Some((item, p2)) => {
                        proof {
                            assert(view_entry_list(acc@.push(item)) =~= view_entry_list(acc@) + seq![(item.0@, view_byte_list(item.1@))]);
                            let k = (n - i) as nat;
                            let tail = spec_take_n_items(
                                b@,
                                p2 as int,
                                (k - 1) as nat,
                                entry_parser(),
                            );
                            assert(spec_take_n_items(b@, p as int, k, entry_parser()) == match tail {
                                Some((rest2, pe)) => Some((seq![(item.0@, view_byte_list(item.1@))] + rest2, pe)),
                                None => None,
                            });
                            if tail is Some {
                                let (rest2, pe) = tail->Some_0;
                                assert((view_entry_list(acc@) + (seq![(item.0@, view_byte_list(item.1@))] + rest2)) =~= (view_entry_list(acc@)
                                    + seq![(item.0@, view_byte_list(item.1@))]) + rest2);
                            }
                        }
                        acc.push(item);
                        p = p2;
                        i = i + 1;
                    },
                }
            }
        },
    }
}

} // verus!

verus! {

pub fn take_string_list(b: &Vec<u8>, pos: usize) -> (r: Option<(Vec<String>, usize)>)
    ensures
        match r {
            Some((v, p)) => spec_take_list(b@, pos as int, string_parser()) == Some(
                (view_string_list(v@), p as int),
            ),
            None => spec_take_list(b@, pos as int, string_parser()) is None,
        },
{
    match take_u64(b, pos) {
        None => None,
        Some((n, p0)) => {
            proof {
                assert(spec_take_list(b@, pos as int, string_parser()) == spec_take_n_items(
                    b@,
                    p0 as int,
                    n as nat,
                    string_parser(),
                ));
            }
            let mut acc: Vec<String> = Vec::new();
            let mut p = p0;
            let mut i: u64 = 0;
            proof {
                if spec_take_n_items(b@, p0 as int, n as nat, string_parser()) is Some {
                    let (rest, pe) = spec_take_n_items(
                        b@,
                        p0 as int,
                        n as nat,
                        string_parser(),
                    )->Some_0;
                    assert(view_string_list(acc@) + rest =~= rest);
                }
            }
            loop
                invariant
                    i <= n,
                    i == acc@.len(),
                    spec_take_list(b@, pos as int, string_parser()) == spec_take_n_items(
                        b@,
                        p0 as int,
                        n as nat,
                        string_parser(),
                    ),
                    match spec_take_n_items(b@, p as int, (n - i) as nat, string_parser()) {
                        Some((rest, pend)) => spec_take_n_items(
                            b@,
                            p0 as int,
                            n as nat,
                            string_parser(),
                        ) == Some((view_string_list(acc@) + rest, pend)),
                        None => spec_take_n_items(b@, p0 as int, n as nat, string_parser()) is None,
                    },
                decreases n - i,
            {
                if i == n {
                    proof {
                        assert(spec_take_n_items(b@, p as int, 0, string_parser()) == Some(
                            (Seq::<Seq<char>>::empty(), p as int),
                        ));
                        assert(view_string_list(acc@) + Seq::<Seq<char>>::empty() =~= view_string_list(acc@));
                    }
                    return Some((acc, p));
                }
                match take_string(b, p) {
                    None => {
                        return None;
                    },
                    Some((item, p2)) => {
                        proof {
                            assert(view_string_list(acc@.push(item)) =~= view_string_list(acc@) + seq![item@]);
                            let k = (n - i) as nat;
                            let tail = spec_take_n_items(
                                b@,
                                p2 as int,
                                (k - 1) as nat,
                                string_parser(),
                            );
                            assert(spec_take_n_items(b@, p as int, k, string_parser()) == match tail {
                                Some((rest2, pe)) => Some((seq![item@] + rest2, pe)),
                                None => None,
                            });
                            if tail is Some {
                                let (rest2, pe) = tail->Some_0;
                                assert((view_string_list(acc@) + (seq![item@] + rest2)) =~= (view_string_list(acc@)
                                    + seq![item@]) + rest2);
                            }
                        }
                        acc.push(item);
                        p = p2;
                        i = i + 1;
                    },
                }
            }
        },
    }
}

} // verus!
// ---------------------------------------------------------------------------
// Round-trip lemmas for the concrete list shapes. Encoded lengths must fit
// the 64-bit length prefixes; every list built from exec vectors does.
// ---------------------------------------------------------------------------

verus! {

pub open spec fn wf_bytes_elem(s: Seq<u8>) -> bool {
    s.len() <= u64::MAX
}

pub open spec fn wf_byte_list(l: Seq<Seq<u8>>) -> bool {
    l.len() <= u64::MAX && forall|i: int| 0 <= i < l.len() ==> wf_bytes_elem(#[trigger] l[i])
}

pub open spec fn wf_pair_list(l: Seq<(Seq<u8>, Seq<u8>)>) -> bool {
    l.len() <= u64::MAX && forall|i: int|
        0 <= i < l.len() ==> wf_bytes_elem(#[trigger] l[i].0) && wf_bytes_elem(l[i].1)
}

pub open spec fn wf_triple_list(l: Seq<(Seq<u8>, Seq<u8>, Seq<u8>)>) -> bool {
    l.len() <= u64::MAX && forall|i: int|
        0 <= i < l.len() ==> wf_bytes_elem(#[trigger] l[i].0) && wf_bytes_elem(l[i].1)
            && wf_bytes_elem(l[i].2)
}

pub open spec fn wf_entry_list(l: Seq<(Seq<u8>, Seq<Seq<u8>>)>) -> bool {
    l.len() <= u64::MAX && forall|i: int|
        0 <= i < l.len() ==> wf_bytes_elem(#[trigger] l[i].0) && wf_byte_list(l[i].1)
}

pub open spec fn wf_string_elem(s: Seq<char>) -> bool {
    encode_utf8(s).len() <= u64::MAX
}

pub open spec fn wf_string_list(l: Seq<Seq<char>>) -> bool {
    l.len() <= u64::MAX && forall|i: int| 0 <= i < l.len() ==> wf_string_elem(#[trigger] l[i])
}

pub proof fn lemma_elem_pair(b: Seq<u8>, pp: int, v: (Seq<u8>, Seq<u8>))
    requires
        0 <= pp,
        wf_bytes_elem(v.0),
        wf_bytes_elem(v.1),
        pp + (pair_enc())(v).len() <= b.len(),
        b.subrange(pp, pp + (pair_enc())(v).len()) == (pair_enc())(v),
    ensures
        (pair_parser())(b, pp) == Some((v, pp + (pair_enc())(v).len())),
{
    let e = (pair_enc())(v);
    let e0 = spec_lp_bytes(v.0);
    let e1 = spec_lp_bytes(v.1);
    assert(e == e0 + e1);
    assert(b.subrange(pp, pp + e0.len() as int) =~= e0) by {
        assert forall|j: int| 0 <= j < e0.len() implies b[pp + j] == e0[j] by {
            assert(b.subrange(pp, pp + e.len())[j] == b[pp + j]);
            assert(e[j] == e0[j]);
        }
    }
    lemma_take_bytes(b, pp, v.0);
    let p1 = pp + e0.len();
    assert(b.subrange(p1, p1 + e1.len() as int) =~= e1) by {
        assert forall|j: int| 0 <= j < e1.len() implies b[p1 + j] == e1[j] by {
            assert(b.subrange(pp, pp + e.len())[e0.len() + j] == b[p1 + j]);
            assert(e[e0.len() + j] == e1[j]);
        }
    }
    lemma_take_bytes(b, p1, v.1);
}

pub proof fn lemma_elem_triple(b: Seq<u8>, pp: int, v: (Seq<u8>, Seq<u8>, Seq<u8>))
    requires
        0 <= pp,
        wf_bytes_elem(v.0),
        wf_bytes_elem(v.1),
        wf_bytes_elem(v.2),
        pp + (triple_enc())(v).len() <= b.len(),
        b.subrange(pp, pp + (triple_enc())(v).len()) == (triple_enc())(v),
    ensures
        (triple_parser())(b, pp) == Some((v, pp + (triple_enc())(v).len())),
{
    let e = (triple_enc())(v);
    let e0 = spec_lp_bytes(v.0);
    let e1 = spec_lp_bytes(v.1);
    let e2 = spec_lp_bytes(v.2);
    assert(e == e0 + e1 + e2);
    assert(b.subrange(pp, pp + e0.len() as int) =~= e0) by {
        assert forall|j: int| 0 <= j < e0.len() implies b[pp + j] == e0[j] by {
            assert(b.subrange(pp, pp + e.len())[j] == b[pp + j]);
            assert(e[j] == e0[j]);
        }
    }
    lemma_take_bytes(b, pp, v.0);
    let p1 = pp + e0.len();
    assert(b.subrange(p1, p1 + e1.len() as int) =~= e1) by {
        assert forall|j: int| 0 <= j < e1.len() implies b[p1 + j] == e1[j] by {
            assert(b.subrange(pp, pp + e.len())[e0.len() + j] == b[p1 + j]);
            assert(e[e0.len() + j] == e1[j]);
        }
    }
    lemma_take_bytes(b, p1, v.1);
    let p2 = p1 + e1.len();
    assert(b.subrange(p2, p2 + e2.len() as int) =~= e2) by {
        assert forall|j: int| 0 <= j < e2.len() implies b[p2 + j] == e2[j] by {
            assert(b.subrange(pp, pp + e.len())[e0.len() + e1.len() + j] == b[p2 + j]);
            assert(e[e0.len() + e1.len() + j] == e2[j]);
        }
    }
    lemma_take_bytes(b, p2, v.2);
}

pub proof fn lemma_take_byte_list_rt(b: Seq<u8>, pos: int, l: Seq<Seq<u8>>)
    requires
        0 <= pos,
        wf_byte_list(l),
        pos + spec_enc_list(l, bytes_enc()).len() <= b.len(),
        b.subrange(pos, pos + spec_enc_list(l, bytes_enc()).len()) == spec_enc_list(
            l,
            bytes_enc(),
        ),
    ensures
        spec_take_list(b, pos, bytes_parser()) == Some(
            (l, pos + spec_enc_list(l, bytes_enc()).len()),
        ),
{
    assert forall|pp: int, i: int|
        #![trigger (bytes_parser())(b, pp), (bytes_enc())(l[i])]
        0 <= i < l.len() && 0 <= pp && pp + (bytes_enc())(l[i]).len() <= b.len() && b.subrange(
            pp,
            pp + (bytes_enc())(l[i]).len(),
        ) == (bytes_enc())(l[i]) implies (bytes_parser())(b, pp) == Some(
        (l[i], pp + (bytes_enc())(l[i]).len()),
    ) by {
        lemma_take_bytes(b, pp, l[i]);
    }
    lemma_take_list(b, pos, l, bytes_enc(), bytes_parser());
}

pub proof fn lemma_take_pair_list_rt(b: Seq<u8>, pos: int, l: Seq<(Seq<u8>, Seq<u8>)>)
    requires
        0 <= pos,
        wf_pair_list(l),
        pos + spec_enc_list(l, pair_enc()).len() <= b.len(),
        b.subrange(pos, pos + spec_enc_list(l, pair_enc()).len()) == spec_enc_list(l, pair_enc()),
    ensures
        spec_take_list(b, pos, pair_parser()) == Some(
            (l, pos + spec_enc_list(l, pair_enc()).len()),
        ),
{
    assert forall|pp: int, i: int|
        #![trigger (pair_parser())(b, pp), (pair_enc())(l[i])]
        0 <= i < l.len() && 0 <= pp && pp + (pair_enc())(l[i]).len() <= b.len() && b.subrange(
            pp,
            pp + (pair_enc())(l[i]).len(),
        ) == (pair_enc())(l[i]) implies (pair_parser())(b, pp) == Some(
        (l[i], pp + (pair_enc())(l[i]).len()),
    ) by {
        lemma_elem_pair(b, pp, l[i]);
    }
    lemma_take_list(b, pos, l, pair_enc(), pair_parser());
}

pub proof fn lemma_take_triple_list_rt(b: Seq<u8>, pos: int, l: Seq<(Seq<u8>, Seq<u8>, Seq<u8>)>)
    requires
        0 <= pos,
        wf_triple_list(l),
        pos + spec_enc_list(l, triple_enc()).len() <= b.len(),
        b.subrange(pos, pos + spec_enc_list(l, triple_enc()).len()) == spec_enc_list(
            l,
            triple_enc(),
        ),
    ensures
        spec_take_list(b, pos, triple_parser()) == Some(
            (l, pos + spec_enc_list(l, triple_enc()).len()),
        ),
{
    assert forall|pp: int, i: int|
        #![trigger (triple_parser())(b, pp), (triple_enc())(l[i])]
        0 <= i < l.len() && 0 <= pp && pp + (triple_enc())(l[i]).len() <= b.len() && b.subrange(
            pp,
            pp + (triple_enc())(l[i]).len(),
        ) == (triple_enc())(l[i]) implies (triple_parser())(b, pp) == Some(
        (l[i], pp + (triple_enc())(l[i]).len()),
    ) by {
        lemma_elem_triple(b, pp, l[i]);
    }
    lemma_take_list(b, pos, l, triple_enc(), triple_parser());
}

pub proof fn lemma_elem_entry(b: Seq<u8>, pp: int, v: (Seq<u8>, Seq<Seq<u8>>))
    requires
        0 <= pp,
        wf_bytes_elem(v.0),
        wf_byte_list(v.1),
        pp + (entry_enc())(v).len() <= b.len(),
        b.subrange(pp, pp + (entry_enc())(v).len()) == (entry_enc())(v),
    ensures
        (entry_parser())(b, pp) == Some((v, pp + (entry_enc())(v).len())),
{
    let e = (entry_enc())(v);
    let e0 = spec_lp_bytes(v.0);
    let e1 = spec_enc_list(v.1, bytes_enc());
    assert(e == e0 + e1);
    assert(b.subrange(pp, pp + e0.len() as int) =~= e0) by {
        assert forall|j: int| 0 <= j < e0.len() implies b[pp + j] == e0[j] by {
            assert(b.subrange(pp, pp + e.len())[j] == b[pp + j]);
            assert(e[j] == e0[j]);
        }
    }
    lemma_take_bytes(b, pp, v.0);
    let p1 = pp + e0.len();
    assert(b.subrange(p1, p1 + e1.len() as int) =~= e1) by {
        assert forall|j: int| 0 <= j < e1.len() implies b[p1 + j] == e1[j] by {
            assert(b.subrange(pp, pp + e.len())[e0.len() + j] == b[p1 + j]);
            assert(e[e0.len() + j] == e1[j]);
        }
    }
    lemma_take_byte_list_rt(b, p1, v.1);
}

pub proof fn lemma_take_entry_list_rt(b: Seq<u8>, pos: int, l: Seq<(Seq<u8>, Seq<Seq<u8>>)>)
    requires
        0 <= pos,
        wf_entry_list(l),
        pos + spec_enc_list(l, entry_enc()).len() <= b.len(),
        b.subrange(pos, pos + spec_enc_list(l, entry_enc()).len()) == spec_enc_list(
            l,
            entry_enc(),
        ),
    ensures
        spec_take_list(b, pos, entry_parser()) == Some(
            (l, pos + spec_enc_list(l, entry_enc()).len()),
        ),
{
    assert forall|pp: int, i: int|
        #![trigger (entry_parser())(b, pp), (entry_enc())(l[i])]
        0 <= i < l.len() && 0 <= pp && pp + (entry_enc())(l[i]).len() <= b.len() && b.subrange(
            pp,
            pp + (entry_enc())(l[i]).len(),
        ) == (entry_enc())(l[i]) implies (entry_parser())(b, pp) == Some(
        (l[i], pp + (entry_enc())(l[i]).len()),
    ) by {
        lemma_elem_entry(b, pp, l[i]);
    }
    lemma_take_list(b, pos, l, entry_enc(), entry_parser());
}

pub proof fn lemma_take_string_list_rt(b: Seq<u8>, pos: int, l: Seq<Seq<char>>)
    requires
        0 <= pos,
        wf_string_list(l),
        pos + spec_enc_list(l, string_enc()).len() <= b.len(),
        b.subrange(pos, pos + spec_enc_list(l, string_enc()).len()) == spec_enc_list(
            l,
            string_enc(),
        ),
    ensures
        spec_take_list(b, pos, string_parser()) == Some(
            (l, pos + spec_enc_list(l, string_enc()).len()),
        ),
{
    assert forall|pp: int, i: int|
        #![trigger (string_parser())(b, pp), (string_enc())(l[i])]
        0 <= i < l.len() && 0 <= pp && pp + (string_enc())(l[i]).len() <= b.len() && b.subrange(
            pp,
            pp + (string_enc())(l[i]).len(),
        ) == (string_enc())(l[i]) implies (string_parser())(b, pp) == Some(
        (l[i], pp + (string_enc())(l[i]).len()),
    ) by {
        lemma_take_string(b, pp, l[i]);
    }
    lemma_take_list(b, pos, l, string_enc(), string_parser());
}

} // verus!
// ---------------------------------------------------------------------------
// Two further shapes for snapshots: adjacency entries (a source key with its
// out-edges) and whole inbox vectors (a list of entry lists).
// ---------------------------------------------------------------------------

verus! {

/// An adjacency entry: a source vertex id with its out-edges.
pub open spec fn adj_enc() -> spec_fn((Seq<u8>, Seq<(Seq<u8>, Seq<u8>)>)) -> Seq<u8> {
    |e: (Seq<u8>, Seq<(Seq<u8>, Seq<u8>)>)| spec_lp_bytes(e.0) + spec_enc_list(e.1, pair_enc())
}

pub open spec fn adj_parser() -> spec_fn(Seq<u8>, int) -> Option<
    ((Seq<u8>, Seq<(Seq<u8>, Seq<u8>)>), int),
> {
    |b: Seq<u8>, pos: int|
        match spec_take_bytes(b, pos) {
            Some((a, p)) => match spec_take_list(b, p, pair_parser()) {
                Some((es, p2)) => Some(((a, es), p2)),
                None => None,
            },
            None => None,
        }
}

/// One inbox, as its entries; a list of these carries a whole inbox vector.
pub open spec fn inbox_enc() -> spec_fn(Seq<(Seq<u8>, Seq<Seq<u8>>)>) -> Seq<u8> {
    |e: Seq<(Seq<u8>, Seq<Seq<u8>>)>| spec_enc_list(e, entry_enc())
}

pub open spec fn inbox_parser() -> spec_fn(Seq<u8>, int) -> Option<
    (Seq<(Seq<u8>, Seq<Seq<u8>>)>, int),
> {
    |b: Seq<u8>, pos: int| spec_take_list(b, pos, entry_parser())
}

pub open spec fn view_adj_list(v: Seq<(Vec<u8>, Vec<(Vec<u8>, Vec<u8>)>)>) -> Seq<
    (Seq<u8>, Seq<(Seq<u8>, Seq<u8>)>),
> {
    v.map_values(|e: (Vec<u8>, Vec<(Vec<u8>, Vec<u8>)>)| (e.0@, view_pair_list(e.1@)))
}

pub open spec fn wf_adj_list(l: Seq<(Seq<u8>, Seq<(Seq<u8>, Seq<u8>)>)>) -> bool {
    l.len() <= u64::MAX && forall|i: int|
        0 <= i < l.len() ==> wf_bytes_elem(#[trigger] l[i].0) && wf_pair_list(l[i].1)
}

pub open spec fn wf_inbox_list(l: Seq<Seq<(Seq<u8>, Seq<Seq<u8>>)>>) -> bool {
    l.len() <= u64::MAX && forall|i: int| 0 <= i < l.len() ==> wf_entry_list(#[trigger] l[i])
}

pub fn put_adj_list(out: &mut Vec<u8>, l: &Vec<(Vec<u8>, Vec<(Vec<u8>, Vec<u8>)>)>)
    ensures
        final(out)@ == old(out)@ + spec_enc_list(view_adj_list(l@), adj_enc()),
{
    put_u64(out, l.len() as u64);
    let ghost base = out@;
    let ghost lv = view_adj_list(l@);
    let n = l.len();
    let mut i: usize = 0;
    while i < n
        invariant
            i <= n,
            n == l@.len(),
            lv == view_adj_list(l@),
            out@ == base + spec_enc_items(lv.take(i as int), adj_enc()),
        decreases n - i,
    {
        put_bytes(out, &l[i].0);
        put_pair_list(out, &l[i].1);
        proof {
            lemma_enc_items_push(lv, adj_enc(), i as int);
            assert(lv[i as int] == (l@[i as int].0@, view_pair_list(l@[i as int].1@)));
            assert(base + spec_enc_items(lv.take(i as int), adj_enc()) + spec_lp_bytes(
                l@[i as int].0@,
            ) + spec_enc_list(view_pair_list(l@[i as int].1@), pair_enc()) =~= base
                + spec_enc_items(lv.take(i + 1), adj_enc()));
        }
        i += 1;
    }
    proof {
        lemma_enc_items_all(lv, adj_enc());
        assert(old(out)@ + spec_enc_list(lv, adj_enc()) =~= base + spec_enc_items(lv, adj_enc()));
    }
}

pub fn take_adj(b: &Vec<u8>, pos: usize) -> (r: Option<
    ((Vec<u8>, Vec<(Vec<u8>, Vec<u8>)>), usize),
>)
    ensures
        match r {
            Some((v, p)) => (adj_parser())(b@, pos as int) == Some(
                ((v.0@, view_pair_list(v.1@)), p as int),
            ),
            None => (adj_parser())(b@, pos as int) is None,
        },
{
    match take_bytes(b, pos) {
        None => None,
        Some((a, p)) => match take_pair_list(b, p) {
            None => None,
            Some((es, p2)) => Some(((a, es), p2)),
        },
    }
}

pub proof fn lemma_elem_adj(b: Seq<u8>, pp: int, v: (Seq<u8>, Seq<(Seq<u8>, Seq<u8>)>))
    requires
        0 <= pp,
        wf_bytes_elem(v.0),
        wf_pair_list(v.1),
        pp + (adj_enc())(v).len() <= b.len(),
        b.subrange(pp, pp + (adj_enc())(v).len()) == (adj_enc())(v),
    ensures
        (adj_parser())(b, pp) == Some((v, pp + (adj_enc())(v).len())),
{
    let e = (adj_enc())(v);
    let e0 = spec_lp_bytes(v.0);
    let e1 = spec_enc_list(v.1, pair_enc());
    assert(e == e0 + e1);
    assert(b.subrange(pp, pp + e0.len() as int) =~= e0) by {
        assert forall|j: int| 0 <= j < e0.len() implies b[pp + j] == e0[j] by {
            assert(b.subrange(pp, pp + e.len())[j] == b[pp + j]);
            assert(e[j] == e0[j]);
        }
    }
    lemma_take_bytes(b, pp, v.0);
    let p1 = pp + e0.len();
    assert(b.subrange(p1, p1 + e1.len() as int) =~= e1) by {
        assert forall|j: int| 0 <= j < e1.len() implies b[p1 + j] == e1[j] by {
            assert(b.subrange(pp, pp + e.len())[e0.len() + j] == b[p1 + j]);
            assert(e[e0.len() + j] == e1[j]);
        }
    }
    lemma_take_pair_list_rt(b, p1, v.1);
}

pub proof fn lemma_take_adj_list_rt(b: Seq<u8>, pos: int, l: Seq<(Seq<u8>, Seq<(Seq<u8>, Seq<u8>)>)>)
    requires
        0 <= pos,
        wf_adj_list(l),
        pos + spec_enc_list(l, adj_enc()).len() <= b.len(),
        b.subrange(pos, pos + spec_enc_list(l, adj_enc()).len()) == spec_enc_list(l, adj_enc()),
    ensures
        spec_take_list(b, pos, adj_parser()) == Some(
            (l, pos + spec_enc_list(l, adj_enc()).len()),
        ),
{
    assert forall|pp: int, i: int|
        #![trigger (adj_parser())(b, pp), (adj_enc())(l[i])]
        0 <= i < l.len() && 0 <= pp && pp + (adj_enc())(l[i]).len() <= b.len() && b.subrange(
            pp,
            pp + (adj_enc())(l[i]).len(),
        ) == (adj_enc())(l[i]) implies (adj_parser())(b, pp) == Some(
        (l[i], pp + (adj_enc())(l[i]).len()),
    ) by {
        lemma_elem_adj(b, pp, l[i]);
    }
    lemma_take_list(b, pos, l, adj_enc(), adj_parser());
}

pub fn put_inbox_list(out: &mut Vec<u8>, l: &Vec<Vec<(Vec<u8>, Vec<Vec<u8>>)>>)
    ensures
        final(out)@ == old(out)@ + spec_enc_list(view_inbox_list(l@), inbox_enc()),
{
    put_u64(out, l.len() as u64);
    let ghost base = out@;
    let ghost lv = view_inbox_list(l@);
    let n = l.len();
    let mut i: usize = 0;
    while i < n
        invariant
            i <= n,
            n == l@.len(),
            lv == view_inbox_list(l@),
            out@ == base + spec_enc_items(lv.take(i as int), inbox_enc()),
        decreases n - i,
    {
        put_entry_list(out, &l[i]);
        proof {
            lemma_enc_items_push(lv, inbox_enc(), i as int);
            assert(lv[i as int] == view_entry_list(l@[i as int]@));
            assert(base + spec_enc_items(lv.take(i as int), inbox_enc()) + spec_enc_list(
                view_entry_list(l@[i as int]@),
                entry_enc(),
            ) =~= base + spec_enc_items(lv.take(i + 1), inbox_enc()));
        }
        i += 1;
    }
    proof {
        lemma_enc_items_all(lv, inbox_enc());
        assert(old(out)@ + spec_enc_list(lv, inbox_enc()) =~= base + spec_enc_items(
            lv,
            inbox_enc(),
        ));
    }
}

pub open spec fn view_inbox_list(v: Seq<Vec<(Vec<u8>, Vec<Vec<u8>>)>>) -> Seq<
    Seq<(Seq<u8>, Seq<Seq<u8>>)>,
> {
    v.map_values(|e: Vec<(Vec<u8>, Vec<Vec<u8>>)>| view_entry_list(e@))
}

pub fn take_inbox_list(b: &Vec<u8>, pos: usize) -> (r: Option<
    (Vec<Vec<(Vec<u8>, Vec<Vec<u8>>)>>, usize),
>)
    ensures
        match r {
            Some((v, p)) => spec_take_list(b@, pos as int, inbox_parser()) == Some(
                (view_inbox_list(v@), p as int),
            ),
            None => spec_take_list(b@, pos as int, inbox_parser()) is None,
        },
{
    match take_u64(b, pos) {
        None => None,
        Some((n, p0)) => {
            proof {
                assert(spec_take_list(b@, pos as int, inbox_parser()) == spec_take_n_items(
                    b@,
                    p0 as int,
                    n as nat,
                    inbox_parser(),
                ));
            }
            let mut acc: Vec<Vec<(Vec<u8>, Vec<Vec<u8>>)>> = Vec::new();
            let mut p = p0;
            let mut i: u64 = 0;
            proof {
                if spec_take_n_items(b@, p0 as int, n as nat, inbox_parser()) is Some {
                    let (rest, pe) = spec_take_n_items(
                        b@,
                        p0 as int,
                        n as nat,
                        inbox_parser(),
                    )->Some_0;
                    assert(view_inbox_list(acc@) + rest =~= rest);
                }
            }
            loop
                invariant
                    i <= n,
                    i == acc@.len(),
                    spec_take_list(b@, pos as int, inbox_parser()) == spec_take_n_items(
                        b@,
                        p0 as int,
                        n as nat,
                        inbox_parser(),
                    ),
                    match spec_take_n_items(b@, p as int, (n - i) as nat, inbox_parser()) {
                        Some((rest, pend)) => spec_take_n_items(
                            b@,
                            p0 as int,
                            n as nat,
                            inbox_parser(),
                        ) == Some((view_inbox_list(acc@) + rest, pend)),
                        None => spec_take_n_items(b@, p0 as int, n as nat, inbox_parser()) is None,
                    },
                decreases n - i,
            {
                if i == n {
                    proof {
                        assert(spec_take_n_items(b@, p as int, 0, inbox_parser()) == Some(
                            (Seq::<Seq<(Seq<u8>, Seq<Seq<u8>>)>>::empty(), p as int),
                        ));
                        assert(view_inbox_list(acc@) + Seq::<Seq<(Seq<u8>, Seq<Seq<u8>>)>>::empty()
                            =~= view_inbox_list(acc@));
                    }
                    return Some((acc, p));
                }
                match take_entry_list(b, p) {
                    None => {
                        return None;
                    },
                    Some((item, p2)) => {
                        proof {
                            assert(view_inbox_list(acc@.push(item)) =~= view_inbox_list(acc@)
                                + seq![view_entry_list(item@)]);
                            let k = (n - i) as nat;
                            let tail = spec_take_n_items(
                                b@,
                                p2 as int,
                                (k - 1) as nat,
                                inbox_parser(),
                            );
                            assert(spec_take_n_items(b@, p as int, k, inbox_parser())
                                == match tail {
                                Some((rest2, pe)) => Some(
                                    (seq![view_entry_list(item@)] + rest2, pe),
                                ),
                                None => None,
                            });
                            if tail is Some {
                                let (rest2, pe) = tail->Some_0;
                                assert((view_inbox_list(acc@) + (seq![view_entry_list(item@)]
                                    + rest2)) =~= (view_inbox_list(acc@) + seq![view_entry_list(
                                    item@,
                                )]) + rest2);
                            }
                        }
                        acc.push(item);
                        p = p2;
                        i = i + 1;
                    },
                }
            }
        },
    }
}

pub proof fn lemma_take_inbox_list_rt(b: Seq<u8>, pos: int, l: Seq<Seq<(Seq<u8>, Seq<Seq<u8>>)>>)
    requires
        0 <= pos,
        wf_inbox_list(l),
        pos + spec_enc_list(l, inbox_enc()).len() <= b.len(),
        b.subrange(pos, pos + spec_enc_list(l, inbox_enc()).len()) == spec_enc_list(
            l,
            inbox_enc(),
        ),
    ensures
        spec_take_list(b, pos, inbox_parser()) == Some(
            (l, pos + spec_enc_list(l, inbox_enc()).len()),
        ),
{
    assert forall|pp: int, i: int|
        #![trigger (inbox_parser())(b, pp), (inbox_enc())(l[i])]
        0 <= i < l.len() && 0 <= pp && pp + (inbox_enc())(l[i]).len() <= b.len() && b.subrange(
            pp,
            pp + (inbox_enc())(l[i]).len(),
        ) == (inbox_enc())(l[i]) implies (inbox_parser())(b, pp) == Some(
        (l[i], pp + (inbox_enc())(l[i]).len()),
    ) by {
        lemma_take_entry_list_rt(b, pp, l[i]);
    }
    lemma_take_list(b, pos, l, inbox_enc(), inbox_parser());
}

} // verus!

verus! {

pub fn take_adj_list(b: &Vec<u8>, pos: usize) -> (r: Option<
    (Vec<(Vec<u8>, Vec<(Vec<u8>, Vec<u8>)>)>, usize),
>)
    ensures
        match r {
            Some((v, p)) => spec_take_list(b@, pos as int, adj_parser()) == Some(
                (view_adj_list(v@), p as int),
            ),
            None => spec_take_list(b@, pos as int, adj_parser()) is None,
        },
{
    match take_u64(b, pos) {
        None => None,
        Some((n, p0)) => {
            proof {
                assert(spec_take_list(b@, pos as int, adj_parser()) == spec_take_n_items(
                    b@,
                    p0 as int,
                    n as nat,
                    adj_parser(),
                ));
            }
            let mut acc: Vec<(Vec<u8>, Vec<(Vec<u8>, Vec<u8>)>)> = Vec::new();
            let mut p = p0;
            let mut i: u64 = 0;
            proof {
                if spec_take_n_items(b@, p0 as int, n as nat, adj_parser()) is Some {
                    let (rest, pe) = spec_take_n_items(
                        b@,
                        p0 as int,
                        n as nat,
                        adj_parser(),
                    )->Some_0;
                    assert(view_adj_list(acc@) + rest =~= rest);
                }
            }
            loop
                invariant
                    i <= n,
                    i == acc@.len(),
                    spec_take_list(b@, pos as int, adj_parser()) == spec_take_n_items(
                        b@,
                        p0 as int,
                        n as nat,
                        adj_parser(),
                    ),
                    match spec_take_n_items(b@, p as int, (n - i) as nat, adj_parser()) {
                        Some((rest, pend)) => spec_take_n_items(
                            b@,
                            p0 as int,
                            n as nat,
                            adj_parser(),
                        ) == Some((view_adj_list(acc@) + rest, pend)),
                        None => spec_take_n_items(b@, p0 as int, n as nat, adj_parser()) is None,
                    },
                decreases n - i,
            {
                if i == n {
                    proof {
                        assert(spec_take_n_items(b@, p as int, 0, adj_parser()) == Some(
                            (Seq::<(Seq<u8>, Seq<(Seq<u8>, Seq<u8>)>)>::empty(), p as int),
                        ));
                        assert(view_adj_list(acc@) + Seq::<
                            (Seq<u8>, Seq<(Seq<u8>, Seq<u8>)>),
                        >::empty() =~= view_adj_list(acc@));
                    }
                    return Some((acc, p));
                }
                match take_adj(b, p) {
                    None => {
                        return None;
                    },
                    Some((item, p2)) => {
                        proof {
                            assert(view_adj_list(acc@.push(item)) =~= view_adj_list(acc@)
                                + seq![(item.0@, view_pair_list(item.1@))]);
                            let k = (n - i) as nat;
                            let tail = spec_take_n_items(
                                b@,
                                p2 as int,
                                (k - 1) as nat,
                                adj_parser(),
                            );
                            assert(spec_take_n_items(b@, p as int, k, adj_parser()) == match tail {
                                Some((rest2, pe)) => Some(
                                    (seq![(item.0@, view_pair_list(item.1@))] + rest2, pe),
                                ),
                                None => None,
                            });
                            if tail is Some {
                                let (rest2, pe) = tail->Some_0;
                                assert((view_adj_list(acc@) + (seq![(item.0@, view_pair_list(
                                    item.1@,
                                ))] + rest2)) =~= (view_adj_list(acc@) + seq![(item.0@,
                                    view_pair_list(item.1@))]) + rest2);
                            }
                        }
                        acc.push(item);
                        p = p2;
                        i = i + 1;
                    },
                }
            }
        },
    }
}

} // verus!
