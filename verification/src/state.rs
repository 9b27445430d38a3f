//! The per-worker graph state: the vertices table and the out-edge
//! adjacency, with snapshot checkpointing.
//!
//! The vertices table is an association list kept in ascending order of the
//! key bytes — the store's natural iteration order — and the adjacency is
//! keyed by source in first-insertion order. Writes go through `&mut self`,
//! so batches for one source are serialized and parallel edges are
//! preserved: the out-edges of a source grow by exactly the batch entries
//! naming it, in batch order. A snapshot is a byte string from which
//! `restore` rebuilds the exact state.

use vstd::prelude::*;
use crate::wire::{
    view_pair_list, view_adj_list, spec_enc_list, pair_enc, adj_enc, pair_parser, adj_parser,
    spec_take_list, put_pair_list, put_adj_list, take_pair_list, take_adj_list, wf_pair_list,
    wf_adj_list, lemma_take_pair_list_rt, lemma_take_adj_list_rt,
};
use crate::shuffle::vecs_equal;

verus! {

/// The key sequence of an association list.
pub open spec fn keys_of<T>(l: Seq<(Seq<u8>, T)>) -> Seq<Seq<u8>> {
    l.map_values(|e: (Seq<u8>, T)| e.0)
}

/// The first position of a key, or -1 when absent.
pub open spec fn spec_find(keys: Seq<Seq<u8>>, k: Seq<u8>) -> int
    decreases keys.len(),
{
    if keys.len() == 0 {
        -1
    } else if keys[0] == k {
        0
    } else {
        let r = spec_find(keys.drop_first(), k);
        if r == -1 {
            -1
        } else {
            r + 1
        }
    }
}

/// Where a key is found, it is in range and names that key.
pub proof fn lemma_find_range(keys: Seq<Seq<u8>>, k: Seq<u8>)
    ensures
        spec_find(keys, k) == -1 ==> (forall|j: int| 0 <= j < keys.len() ==> keys[j] != k),
        spec_find(keys, k) != -1 ==> 0 <= spec_find(keys, k) < keys.len() && keys[spec_find(
            keys,
            k,
        )] == k,
        spec_find(keys, k) != -1 ==> (forall|j: int|
            0 <= j < spec_find(keys, k) ==> keys[j] != k),
    decreases keys.len(),
{
    if keys.len() > 0 {
        lemma_find_range(keys.drop_first(), k);
        if keys[0] != k {
            assert forall|j: int| 1 <= j < keys.len() implies keys[j] == keys.drop_first()[j
                - 1] by {}
        }
    }
}

/// The find of a key depends on the keys alone.
pub proof fn lemma_find_same_keys(a: Seq<Seq<u8>>, b: Seq<Seq<u8>>, k: Seq<u8>)
    requires
        a.len() == b.len(),
        forall|j: int| 0 <= j < a.len() ==> a[j] == b[j],
    ensures
        spec_find(a, k) == spec_find(b, k),
{
    assert(a =~= b);
}

/// A key found before position `i`, with all earlier keys different.
pub proof fn lemma_find_at(keys: Seq<Seq<u8>>, k: Seq<u8>, i: int)
    requires
        0 <= i < keys.len(),
        forall|j: int| 0 <= j < i ==> #[trigger] keys[j] != k,
        keys[i] == k,
    ensures
        spec_find(keys, k) == i,
    decreases i,
{
    if i > 0 {
        lemma_find_at(keys.drop_first(), k, i - 1);
    }
}

/// A key missing everywhere is not found.
pub proof fn lemma_find_none(keys: Seq<Seq<u8>>, k: Seq<u8>)
    requires
        forall|j: int| 0 <= j < keys.len() ==> #[trigger] keys[j] != k,
    ensures
        spec_find(keys, k) == -1,
    decreases keys.len(),
{
    if keys.len() > 0 {
        lemma_find_none(keys.drop_first(), k);
    }
}

// ---------------------------------------------------------------------------
// Byte-wise lexicographic order on keys, for the sorted vertices table.
// ---------------------------------------------------------------------------

/// Strict lexicographic order on byte strings.
pub open spec fn lex_lt(a: Seq<u8>, b: Seq<u8>) -> bool
    decreases a.len(),
{
    if a.len() == 0 {
        b.len() > 0
    } else if b.len() == 0 {
        false
    } else if a[0] != b[0] {
        a[0] < b[0]
    } else {
        lex_lt(a.drop_first(), b.drop_first())
    }
}

/// Exactly one of `lex_lt(a, b)`, `a == b`, `lex_lt(b, a)` holds.
pub proof fn lemma_lex_trichotomy(a: Seq<u8>, b: Seq<u8>)
    ensures
        lex_lt(a, b) ==> !lex_lt(b, a) && a != b,
        !lex_lt(a, b) && !lex_lt(b, a) ==> a == b,
    decreases a.len(),
{
    if a.len() > 0 && b.len() > 0 && a[0] == b[0] {
        lemma_lex_trichotomy(a.drop_first(), b.drop_first());
        if a.drop_first() == b.drop_first() {
            assert forall|i: int| 0 <= i < a.len() implies a[i] == b[i] by {
                if i > 0 {
                    assert(a.drop_first()[i - 1] == a[i]);
                    assert(b.drop_first()[i - 1] == b[i]);
                }
            }
            assert(a =~= b);
        }
        if a == b {
            assert(a.drop_first() =~= b.drop_first());
        }
    } else if a == b {
        if a.len() > 0 {
            assert(a[0] == b[0]);
        }
    }
}

/// The order is transitive.
pub proof fn lemma_lex_trans(a: Seq<u8>, b: Seq<u8>, c: Seq<u8>)
    requires
        lex_lt(a, b),
        lex_lt(b, c),
    ensures
        lex_lt(a, c),
    decreases a.len(),
{
    if a.len() > 0 && b.len() > 0 && c.len() > 0 && a[0] == b[0] && b[0] == c[0] {
        lemma_lex_trans(a.drop_first(), b.drop_first(), c.drop_first());
    }
}

/// A vertices table in strictly ascending key order.
pub open spec fn sorted_keys(v: Seq<(Seq<u8>, Seq<u8>)>) -> bool {
    forall|i: int, j: int| 0 <= i < j < v.len() ==> lex_lt(#[trigger] v[i].0, #[trigger] v[j].0)
}

/// Where a fresh key belongs in the table: past every smaller key.
pub open spec fn spec_vinsert_pos(v: Seq<(Seq<u8>, Seq<u8>)>, k: Seq<u8>) -> int
    decreases v.len(),
{
    if v.len() == 0 {
        0
    } else if lex_lt(v[0].0, k) {
        1 + spec_vinsert_pos(v.drop_first(), k)
    } else {
        0
    }
}

/// The position a scan stopped at is the insertion position: every earlier
/// key is smaller, and the key at the stop is not.
pub proof fn lemma_vinsert_pos_at(v: Seq<(Seq<u8>, Seq<u8>)>, k: Seq<u8>, i: int)
    requires
        0 <= i <= v.len(),
        forall|j: int| 0 <= j < i ==> lex_lt(#[trigger] v[j].0, k),
        i < v.len() ==> !lex_lt(v[i].0, k),
    ensures
        spec_vinsert_pos(v, k) == i,
    decreases i,
{
    if i > 0 {
        lemma_vinsert_pos_at(v.drop_first(), k, i - 1);
    }
}

/// The insertion position is in range, everything before it is smaller, and
/// the entry at it (when any) is not.
pub proof fn lemma_vinsert_pos_range(v: Seq<(Seq<u8>, Seq<u8>)>, k: Seq<u8>)
    ensures
        0 <= spec_vinsert_pos(v, k) <= v.len(),
        forall|j: int| 0 <= j < spec_vinsert_pos(v, k) ==> lex_lt(#[trigger] v[j].0, k),
        spec_vinsert_pos(v, k) < v.len() ==> !lex_lt(v[spec_vinsert_pos(v, k)].0, k),
    decreases v.len(),
{
    if v.len() > 0 && lex_lt(v[0].0, k) {
        lemma_vinsert_pos_range(v.drop_first(), k);
        assert forall|j: int|
            0 <= j < spec_vinsert_pos(v, k) implies lex_lt(#[trigger] v[j].0, k) by {
            if j > 0 {
                assert(v.drop_first()[j - 1] == v[j]);
            }
        }
    }
}

/// Storing into a sorted table keeps it sorted.
pub proof fn lemma_vput_preserves_sorted(v: Seq<(Seq<u8>, Seq<u8>)>, k: Seq<u8>, value: Seq<u8>)
    requires
        sorted_keys(v),
    ensures
        sorted_keys(spec_vput(v, k, value)),
{
    let f = spec_find(keys_of(v), k);
    lemma_find_range(keys_of(v), k);
    if f == -1 {
        let pos = spec_vinsert_pos(v, k);
        lemma_vinsert_pos_range(v, k);
        let v2 = v.insert(pos, (k, value));
        if pos < v.len() {
            assert(keys_of(v)[pos] != k);
            lemma_lex_trichotomy(v[pos].0, k);
            assert(lex_lt(k, v[pos].0));
        }
        assert forall|i: int, j: int|
            0 <= i < j < v2.len() implies lex_lt(#[trigger] v2[i].0, #[trigger] v2[j].0) by {
            let oi = if i < pos {
                i
            } else {
                i - 1
            };
            let oj = if j < pos {
                j
            } else {
                j - 1
            };
            if i == pos {
                assert(v2[j] == v[oj]);
                if oj > pos {
                    lemma_lex_trans(k, v[pos].0, v[oj].0);
                } else {
                    assert(oj == pos);
                }
            } else if j == pos {
                assert(v2[i] == v[oi]);
            } else {
                assert(v2[i] == v[oi]);
                assert(v2[j] == v[oj]);
            }
        }
        assert(spec_vput(v, k, value) == v2);
    } else {
        let v2 = v.update(f, (k, value));
        assert(keys_of(v)[f] == k);
        assert forall|i: int, j: int|
            0 <= i < j < v2.len() implies lex_lt(#[trigger] v2[i].0, #[trigger] v2[j].0) by {
            assert(v2[i].0 == v[i].0);
            assert(v2[j].0 == v[j].0);
        }
    }
}

/// Byte-wise lexicographic comparison, reflected to the views.
pub fn lex_less(a: &Vec<u8>, b: &Vec<u8>) -> (r: bool)
    ensures
        r == lex_lt(a@, b@),
{
    let an = a.len();
    let bn = b.len();
    let n = if an < bn {
        an
    } else {
        bn
    };
    let mut i: usize = 0;
    proof {
        assert(a@.skip(0) =~= a@);
        assert(b@.skip(0) =~= b@);
    }
    while i < n
        invariant
            i <= n,
            n == if an < bn {
                an as int
            } else {
                bn as int
            },
            an == a@.len(),
            bn == b@.len(),
            lex_lt(a@, b@) == lex_lt(a@.skip(i as int), b@.skip(i as int)),
        decreases n - i,
    {
        let x = a[i];
        let y = b[i];
        proof {
            assert(a@.skip(i as int)[0] == a@[i as int]);
            assert(b@.skip(i as int)[0] == b@[i as int]);
        }
        if x != y {
            return x < y;
        }
        proof {
            assert(a@.skip(i as int).drop_first() =~= a@.skip(i + 1));
            assert(b@.skip(i as int).drop_first() =~= b@.skip(i + 1));
        }
        i += 1;
    }
    proof {
        if an < bn {
            assert(a@.skip(n as int).len() == 0);
            assert(b@.skip(n as int).len() > 0);
        } else {
            assert(a@.skip(n as int).len() == a@.len() - n >= 0);
            assert(b@.skip(n as int).len() == 0);
        }
    }
    an < bn
}

/// Find the first entry holding a key; its position, or nothing.
pub fn find_key<T>(l: &Vec<(Vec<u8>, T)>, k: &Vec<u8>) -> (r: Option<usize>)
    ensures
        match r {
            Some(i) => i < l@.len() && spec_find(exec_keys(l@), k@) == i as int && l@[
                i as int
            ].0@ == k@,
            None => spec_find(exec_keys(l@), k@) == -1,
        },
{
    let n = l.len();
    let mut i: usize = 0;
    while i < n
        invariant
            i <= n,
            n == l@.len(),
            forall|j: int| 0 <= j < i ==> #[trigger] exec_keys(l@)[j] != k@,
        decreases n - i,
    {
        if vecs_equal(&l[i].0, k) {
            proof {
                lemma_find_at(exec_keys(l@), k@, i as int);
            }
            return Some(i);
        }
        i += 1;
    }
    proof {
        lemma_find_none(exec_keys(l@), k@);
    }
    None
}

/// The key sequence of an exec association list.
pub open spec fn exec_keys<T>(l: Seq<(Vec<u8>, T)>) -> Seq<Seq<u8>> {
    l.map_values(|e: (Vec<u8>, T)| e.0@)
}

// ---------------------------------------------------------------------------
// The vertices table
// ---------------------------------------------------------------------------

/// The mathematical shape of the vertices table.
pub type VertexTable = Seq<(Seq<u8>, Seq<u8>)>;

/// The mathematical shape of the adjacency: each source with its out-edges.
pub type AdjTable = Seq<(Seq<u8>, Seq<(Seq<u8>, Seq<u8>)>)>;

/// The value stored under a vertex id, if any.
pub open spec fn spec_vget(v: VertexTable, k: Seq<u8>) -> Option<Seq<u8>> {
    let i = spec_find(keys_of(v), k);
    if i == -1 {
        None
    } else {
        Some(v[i].1)
    }
}

/// Storing a vertex value: overwrite in place, or insert the fresh entry at
/// its position in key order.
pub open spec fn spec_vput(v: VertexTable, k: Seq<u8>, value: Seq<u8>) -> VertexTable {
    let i = spec_find(keys_of(v), k);
    if i == -1 {
        v.insert(spec_vinsert_pos(v, k), (k, value))
    } else {
        v.update(i, (k, value))
    }
}

/// Storing a batch of vertices, first to last.
pub open spec fn spec_vput_all(v: VertexTable, batch: Seq<(Seq<u8>, Seq<u8>)>) -> VertexTable
    decreases batch.len(),
{
    if batch.len() == 0 {
        v
    } else {
        spec_vput_all(spec_vput(v, batch[0].0, batch[0].1), batch.drop_first())
    }
}

/// The out-edges stored for a source, in insertion order.
pub open spec fn spec_out_edges(a: AdjTable, src: Seq<u8>) -> Seq<(Seq<u8>, Seq<u8>)> {
    let i = spec_find(keys_of(a), src);
    if i == -1 {
        Seq::empty()
    } else {
        a[i].1
    }
}

/// Appending one edge to its source's adjacency.
pub open spec fn spec_add_edge(a: AdjTable, src: Seq<u8>, target: Seq<u8>, value: Seq<u8>) -> AdjTable {
    let i = spec_find(keys_of(a), src);
    if i == -1 {
        a.push((src, seq![(target, value)]))
    } else {
        a.update(i, (src, a[i].1.push((target, value))))
    }
}

/// Appending a batch of edges, first to last.
pub open spec fn spec_add_edges(a: AdjTable, batch: Seq<(Seq<u8>, Seq<u8>, Seq<u8>)>) -> AdjTable
    decreases batch.len(),
{
    if batch.len() == 0 {
        a
    } else {
        spec_add_edges(spec_add_edge(a, batch[0].0, batch[0].1, batch[0].2), batch.drop_first())
    }
}

/// The edges of a batch whose source is `src`, in batch order, as
/// (target, value) pairs.
pub open spec fn spec_filter_src(batch: Seq<(Seq<u8>, Seq<u8>, Seq<u8>)>, src: Seq<u8>) -> Seq<
    (Seq<u8>, Seq<u8>),
>
    decreases batch.len(),
{
    if batch.len() == 0 {
        Seq::empty()
    } else {
        (if batch[0].0 == src {
            seq![(batch[0].1, batch[0].2)]
        } else {
            Seq::empty()
        }) + spec_filter_src(batch.drop_first(), src)
    }
}

/// One appended edge changes only its source's out-edges, by one entry at
/// the end.
pub proof fn lemma_add_edge_out(a: AdjTable, src: Seq<u8>, target: Seq<u8>, value: Seq<u8>, v: Seq<u8>)
    ensures
        spec_out_edges(spec_add_edge(a, src, target, value), v) == if v == src {
            spec_out_edges(a, v).push((target, value))
        } else {
            spec_out_edges(a, v)
        },
{
    let i = spec_find(keys_of(a), src);
    lemma_find_range(keys_of(a), src);
    lemma_find_range(keys_of(a), v);
    let a2 = spec_add_edge(a, src, target, value);
    if i == -1 {
        assert(keys_of(a2) =~= keys_of(a).push(src));
        if v == src {
            lemma_find_at(keys_of(a2), v, a.len() as int);
            assert(spec_out_edges(a, v) =~= Seq::<(Seq<u8>, Seq<u8>)>::empty());
            assert(a2[a.len() as int].1 =~= spec_out_edges(a, v).push((target, value)));
        } else {
            let j = spec_find(keys_of(a), v);
            if j == -1 {
                lemma_find_none(keys_of(a2), v);
            } else {
                assert forall|x: int| 0 <= x < j implies #[trigger] keys_of(a2)[x] != v by {
                    assert(keys_of(a2)[x] == keys_of(a)[x]);
                }
                lemma_find_at(keys_of(a2), v, j);
                assert(a2[j] == a[j]);
            }
        }
    } else {
        assert(keys_of(a2) =~= keys_of(a));
        lemma_find_same_keys(keys_of(a2), keys_of(a), v);
        let j = spec_find(keys_of(a), v);
        if v == src {
            assert(j == i);
            assert(a2[i].1 == a[i].1.push((target, value)));
        } else {
            if j != -1 {
                assert(keys_of(a)[j] == v);
                assert(keys_of(a)[i] == src);
                assert(j != i);
                assert(a2[j] == a[j]);
            }
        }
    }
}

/// Edge preservation: after a batch is stored, the out-edges of every vertex
/// are exactly what they were, followed by the batch's edges for that vertex,
/// in batch order. Parallel and duplicate edges are preserved.
pub proof fn lemma_edge_preservation(a: AdjTable, batch: Seq<(Seq<u8>, Seq<u8>, Seq<u8>)>, v: Seq<u8>)
    ensures
        spec_out_edges(spec_add_edges(a, batch), v) == spec_out_edges(a, v) + spec_filter_src(
            batch,
            v,
        ),
    decreases batch.len(),
{
    if batch.len() == 0 {
        assert(spec_out_edges(a, v) + spec_filter_src(batch, v) =~= spec_out_edges(a, v));
    } else {
        let (s, t, val) = batch[0];
        let a2 = spec_add_edge(a, s, t, val);
        lemma_add_edge_out(a, s, t, val, v);
        lemma_edge_preservation(a2, batch.drop_first(), v);
        if v == s {
            assert(spec_out_edges(a, v).push((t, val)) + spec_filter_src(batch.drop_first(), v)
                =~= spec_out_edges(a, v) + spec_filter_src(batch, v));
        } else {
            assert(spec_out_edges(a, v) + spec_filter_src(batch.drop_first(), v)
                =~= spec_out_edges(a, v) + spec_filter_src(batch, v));
        }
    }
}

// ---------------------------------------------------------------------------
// The store
// ---------------------------------------------------------------------------

/// A per-worker graph state: the vertices table and the adjacency.
#[derive(Debug, Clone)]
pub struct GraphState {
    pub vertices: Vec<(Vec<u8>, Vec<u8>)>,
    pub edges: Vec<(Vec<u8>, Vec<(Vec<u8>, Vec<u8>)>)>,
}

impl GraphState {
    /// The vertices table, as its mathematical shape.
    pub open spec fn vertices_view(&self) -> VertexTable {
        view_pair_list(self.vertices@)
    }

    /// The store's invariant: the vertices table is in strictly ascending
    /// key order, which every store the library builds maintains.
    pub open spec fn wf(&self) -> bool {
        sorted_keys(self.vertices_view())
    }

    /// The adjacency, as its mathematical shape.
    pub open spec fn edges_view(&self) -> AdjTable {
        view_adj_list(self.edges@)
    }

    /// An empty store.
    pub fn new() -> (r: Self)
        ensures
            r.vertices_view() == Seq::<(Seq<u8>, Seq<u8>)>::empty(),
            r.edges_view() == Seq::<(Seq<u8>, Seq<(Seq<u8>, Seq<u8>)>)>::empty(),
            r.wf(),
    {
        let r = GraphState { vertices: Vec::new(), edges: Vec::new() };
        proof {
            assert(r.vertices_view() =~= Seq::<(Seq<u8>, Seq<u8>)>::empty());
            assert(r.edges_view() =~= Seq::<(Seq<u8>, Seq<(Seq<u8>, Seq<u8>)>)>::empty());
        }
        r
    }

    /// Store one vertex value: overwrite an existing entry for the id, or
    /// insert a fresh one at its position in key order, so the table stays
    /// sorted.
    pub fn put_vertex(&mut self, id: Vec<u8>, value: Vec<u8>)
        ensures
            final(self).vertices_view() == spec_vput(old(self).vertices_view(), id@, value@),
            final(self).edges_view() == old(self).edges_view(),
            old(self).wf() ==> final(self).wf(),
    {
        proof {
            assert(exec_keys(self.vertices@) =~= keys_of(self.vertices_view()));
            if self.wf() {
                lemma_vput_preserves_sorted(self.vertices_view(), id@, value@);
            }
        }
        match find_key(&self.vertices, &id) {
            Some(i) => {
                let ghost pre = self.vertices_view();
                let entry = vstd::std_specs::vec::vec_index_mut(&mut self.vertices, i);
                entry.1 = value;
                proof {
                    assert(self.vertices_view() =~~= pre.update(i as int, (id@, value@)));
                    assert(pre[i as int].0 == id@);
                }
            },
            None => {
                let ghost pre = self.vertices_view();
                let n = self.vertices.len();
                let mut pos: usize = 0;
                while pos < n
                    invariant
                        pos <= n,
                        n == self.vertices@.len(),
                        pre == self.vertices_view(),
                        forall|j: int| 0 <= j < pos ==> lex_lt(#[trigger] pre[j].0, id@),
                    ensures
                        pos <= n,
                        pre == self.vertices_view(),
                        forall|j: int| 0 <= j < pos ==> lex_lt(#[trigger] pre[j].0, id@),
                        pos < n ==> !lex_lt(pre[pos as int].0, id@),
                    decreases n - pos,
                {
                    proof {
                        assert(pre[pos as int].0 == self.vertices@[pos as int].0@);
                    }
                    if !lex_less(&self.vertices[pos].0, &id) {
                        break ;
                    }
                    pos += 1;
                }
                proof {
                    lemma_vinsert_pos_at(pre, id@, pos as int);
                }
                self.vertices.insert(pos, (id, value));
                proof {
                    assert(self.vertices_view() =~~= pre.insert(pos as int, (id@, value@)));
                }
            },
        }
    }

    /// The stored value of a vertex, if any.
    pub fn get_vertex(&self, id: &Vec<u8>) -> (r: Option<&Vec<u8>>)
        ensures
            match r {
                Some(value) => spec_vget(self.vertices_view(), id@) == Some(value@),
                None => spec_vget(self.vertices_view(), id@) is None,
            },
    {
        proof {
            assert(exec_keys(self.vertices@) =~= keys_of(self.vertices_view()));
        }
        match find_key(&self.vertices, id) {
            Some(i) => Some(&self.vertices[i].1),
            None => None,
        }
    }

    /// Store a batch of vertices, first to last; later entries overwrite
    /// earlier ones with the same id.
    pub fn put_vertex_batch(&mut self, batch: Vec<(Vec<u8>, Vec<u8>)>)
        ensures
            final(self).vertices_view() == spec_vput_all(
                old(self).vertices_view(),
                view_pair_list(batch@),
            ),
            final(self).edges_view() == old(self).edges_view(),
            old(self).wf() ==> final(self).wf(),
    {
        let ghost bv = view_pair_list(batch@);
        let n = batch.len();
        let mut rest = batch;
        let mut k: usize = 0;
        proof {
            assert(bv.skip(0) =~= bv);
            assert(view_pair_list(rest@) =~= bv);
        }
        while k < n
            invariant
                k <= n,
                n == bv.len(),
                view_pair_list(rest@) == bv.skip(k as int),
                self.edges_view() == old(self).edges_view(),
                old(self).wf() ==> self.wf(),
                spec_vput_all(old(self).vertices_view(), bv) == spec_vput_all(
                    self.vertices_view(),
                    bv.skip(k as int),
                ),
            decreases n - k,
        {
            proof {
                assert(rest@.len() == bv.skip(k as int).len());
            }
            let (id, value) = rest.remove(0);
            let ghost idv = id@;
            let ghost valv = value@;
            self.put_vertex(id, value);
            proof {
                assert(bv.skip(k as int)[0] == (idv, valv));
                assert(bv.skip(k as int).drop_first() =~= bv.skip(k + 1));
                assert(view_pair_list(rest@) =~= bv.skip(k + 1));
            }
            k += 1;
        }
        proof {
            assert(bv.skip(n as int) =~= Seq::<(Seq<u8>, Seq<u8>)>::empty());
        }
    }

    /// All stored vertices in the store's natural order: ascending key
    /// bytes, for every store the library builds.
    pub fn list_vertices(&self) -> (r: &Vec<(Vec<u8>, Vec<u8>)>)
        ensures
            view_pair_list(r@) == self.vertices_view(),
            self.wf() ==> sorted_keys(view_pair_list(r@)),
    {
        &self.vertices
    }

    /// Append a batch of edges; batches are serialized through `&mut self`,
    /// so the out-edges of every source grow by exactly the batch's edges for
    /// it, in batch order, duplicates preserved.
    pub fn put_edge_batch(&mut self, batch: Vec<(Vec<u8>, Vec<u8>, Vec<u8>)>)
        ensures
            final(self).edges_view() == spec_add_edges(
                old(self).edges_view(),
                crate::wire::view_triple_list(batch@),
            ),
            final(self).vertices_view() == old(self).vertices_view(),
            old(self).wf() ==> final(self).wf(),
    {
        let ghost bv = crate::wire::view_triple_list(batch@);
        let n = batch.len();
        let mut rest = batch;
        let mut k: usize = 0;
        proof {
            assert(bv.skip(0) =~= bv);
            assert(crate::wire::view_triple_list(rest@) =~= bv);
        }
        while k < n
            invariant
                k <= n,
                n == bv.len(),
                crate::wire::view_triple_list(rest@) == bv.skip(k as int),
                self.vertices_view() == old(self).vertices_view(),
                spec_add_edges(old(self).edges_view(), bv) == spec_add_edges(
                    self.edges_view(),
                    bv.skip(k as int),
                ),
            decreases n - k,
        {
            proof {
                assert(rest@.len() == bv.skip(k as int).len());
            }
            let (src, target, value) = rest.remove(0);
            let ghost sv = src@;
            let ghost tv = target@;
            let ghost vv = value@;
            self.add_edge(src, target, value);
            proof {
                assert(bv.skip(k as int)[0] == (sv, tv, vv));
                assert(bv.skip(k as int).drop_first() =~= bv.skip(k + 1));
                assert(crate::wire::view_triple_list(rest@) =~= bv.skip(k + 1));
            }
            k += 1;
        }
        proof {
            assert(bv.skip(n as int) =~= Seq::<(Seq<u8>, Seq<u8>, Seq<u8>)>::empty());
        }
    }

    /// Append one edge to its source's adjacency.
    fn add_edge(&mut self, src: Vec<u8>, target: Vec<u8>, value: Vec<u8>)
        ensures
            final(self).edges_view() == spec_add_edge(old(self).edges_view(), src@, target@, value@),
            final(self).vertices_view() == old(self).vertices_view(),
    {
        proof {
            assert(exec_keys(self.edges@) =~= keys_of(self.edges_view()));
        }
        match find_key(&self.edges, &src) {
            Some(i) => {
                let ghost pre = self.edges_view();
                let entry = vstd::std_specs::vec::vec_index_mut(&mut self.edges, i);
                entry.1.push((target, value));
                proof {
                    assert(self.edges_view() =~~= pre.update(
                        i as int,
                        (pre[i as int].0, pre[i as int].1.push((target@, value@))),
                    ));
                    assert(pre[i as int].0 == src@);
                }
            },
            None => {
                let ghost pre = self.edges_view();
                let mut one: Vec<(Vec<u8>, Vec<u8>)> = Vec::new();
                one.push((target, value));
                self.edges.push((src, one));
                proof {
                    assert(self.edges_view() =~~= pre.push((src@, seq![(target@, value@)])));
                }
            },
        }
    }

    /// The out-edges of a source, as (target, value) pairs in insertion
    /// order; empty when the source has none.
    pub fn get_out_edges(&self, src: &Vec<u8>) -> (r: Vec<(Vec<u8>, Vec<u8>)>)
        ensures
            view_pair_list(r@) == spec_out_edges(self.edges_view(), src@),
    {
        proof {
            assert(exec_keys(self.edges@) =~= keys_of(self.edges_view()));
        }
        match find_key(&self.edges, src) {
            Some(i) => clone_pairs(&self.edges[i].1),
            None => {
                let r: Vec<(Vec<u8>, Vec<u8>)> = Vec::new();
                proof {
                    assert(view_pair_list(r@) =~= spec_out_edges(self.edges_view(), src@));
                }
                r
            },
        }
    }
}

/// Copy a byte vector.
pub fn clone_bytes(v: &Vec<u8>) -> (r: Vec<u8>)
    ensures
        r@ == v@,
{
    let r = crate::wire::copy_range(v, 0, v.len());
    proof {
        assert(v@.subrange(0, v@.len() as int) =~= v@);
    }
    r
}

/// Copy a list of byte-pair entries.
pub fn clone_pairs(l: &Vec<(Vec<u8>, Vec<u8>)>) -> (r: Vec<(Vec<u8>, Vec<u8>)>)
    ensures
        view_pair_list(r@) == view_pair_list(l@),
{
    let n = l.len();
    let mut r: Vec<(Vec<u8>, Vec<u8>)> = Vec::new();
    let mut i: usize = 0;
    while i < n
        invariant
            i <= n,
            n == l@.len(),
            r@.len() == i,
            forall|j: int| 0 <= j < i ==> #[trigger] view_pair_list(r@)[j] == view_pair_list(l@)[j],
        decreases n - i,
    {
        let a = clone_bytes(&l[i].0);
        let b = clone_bytes(&l[i].1);
        let ghost pre = r@;
        r.push((a, b));
        proof {
            assert(view_pair_list(r@) =~= view_pair_list(pre).push(
                (l@[i as int].0@, l@[i as int].1@),
            ));
            assert(view_pair_list(r@)[i as int] == view_pair_list(l@)[i as int]);
        }
        i += 1;
    }
    proof {
        assert(view_pair_list(r@) =~= view_pair_list(l@));
    }
    r
}

} // verus!
// ---------------------------------------------------------------------------
// Snapshots: a store serialized to bytes and rebuilt exactly.
// ---------------------------------------------------------------------------

verus! {

/// The byte encoding of a whole store: the vertices table, then the
/// adjacency.
pub open spec fn spec_snapshot(v: VertexTable, a: AdjTable) -> Seq<u8> {
    spec_enc_list(v, pair_enc()) + spec_enc_list(a, adj_enc())
}

/// Parse a snapshot back into the two tables; trailing bytes are refused.
pub open spec fn spec_restore(b: Seq<u8>) -> Option<(VertexTable, AdjTable)> {
    match spec_take_list(b, 0, pair_parser()) {
        None => None,
        Some((v, p)) => match spec_take_list(b, p, adj_parser()) {
            None => None,
            Some((a, p2)) => {
                if p2 == b.len() {
                    Some((v, a))
                } else {
                    None
                }
            },
        },
    }
}

impl GraphState {
    /// Serialize the whole store to bytes, for a checkpoint snapshot.
    pub fn snapshot_bytes(&self) -> (r: Vec<u8>)
        ensures
            r@ == spec_snapshot(self.vertices_view(), self.edges_view()),
    {
        let mut out: Vec<u8> = Vec::new();
        put_pair_list(&mut out, &self.vertices);
        put_adj_list(&mut out, &self.edges);
        proof {
            assert(out@ =~= spec_snapshot(self.vertices_view(), self.edges_view()));
        }
        out
    }

    /// Rebuild a store from snapshot bytes; fails on anything that is not a
    /// whole snapshot.
    pub fn restore(b: &Vec<u8>) -> (r: Option<GraphState>)
        ensures
            match r {
                Some(s) => spec_restore(b@) == Some((s.vertices_view(), s.edges_view())),
                None => spec_restore(b@) is None,
            },
    {
        match take_pair_list(b, 0) {
            None => None,
            Some((vertices, p)) => match crate::wire::take_adj_list(b, p) {
                None => None,
                Some((edges, p2)) => {
                    if p2 == b.len() {
                        Some(GraphState { vertices, edges })
                    } else {
                        None
                    }
                },
            },
        }
    }
}

/// Checkpoint fidelity: restoring a snapshot yields exactly the snapshotted
/// tables. No stored vertex or edge is lost or altered by a checkpoint
/// round trip.
pub proof fn lemma_snapshot_roundtrip(v: VertexTable, a: AdjTable)
    requires
        wf_pair_list(v),
        wf_adj_list(a),
    ensures
        spec_restore(spec_snapshot(v, a)) == Some((v, a)),
{
    let b = spec_snapshot(v, a);
    let e0 = spec_enc_list(v, pair_enc());
    let e1 = spec_enc_list(a, adj_enc());
    assert(b.subrange(0, e0.len() as int) =~= e0);
    lemma_take_pair_list_rt(b, 0, v);
    assert(b.subrange(e0.len() as int, e0.len() + e1.len() as int) =~= e1);
    lemma_take_adj_list_rt(b, e0.len() as int, a);
}

} // verus!
