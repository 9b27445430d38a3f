//! The shuffle: routing the messages of an outbox into per-partition
//! inboxes for the next superstep.
//!
//! An inbox maps each target vertex id to the ordered payloads routed to it,
//! kept as a list of entries with distinct keys. Messages to the same target
//! stay in arrival order; the shuffle conserves every message: the total
//! held by the inboxes grows by exactly the size of the routed outbox.

use vstd::prelude::*;
use crate::partition::{partition_of_bytes, spec_partition_of};

verus! {

/// The messages one worker produced during one superstep, in order.
pub type Outbox = Vec<(Vec<u8>, Vec<u8>)>;

/// The mathematical shape of an inbox: target keys with their payloads.
pub type InboxView = Seq<(Seq<u8>, Seq<Seq<u8>>)>;

/// One partition's incoming messages for a superstep, keyed by target
/// vertex id.
#[derive(Debug, Clone)]
pub struct Inbox {
    pub entries: Vec<(Vec<u8>, Vec<Vec<u8>>)>,
}

/// One inbox per partition.
pub type Inboxes = Vec<Inbox>;

impl View for Inbox {
    type V = InboxView;

    open spec fn view(&self) -> InboxView {
        crate::wire::view_entry_list(self.entries@)
    }
}

/// The first position of a key among inbox entries, or -1 when absent.
pub open spec fn spec_find_key(l: InboxView, k: Seq<u8>) -> int
    decreases l.len(),
{
    if l.len() == 0 {
        -1
    } else if l[0].0 == k {
        0
    } else {
        let r = spec_find_key(l.drop_first(), k);
        if r == -1 {
            -1
        } else {
            r + 1
        }
    }
}

/// Where a key is found, it is in range and names that key.
pub proof fn lemma_find_key(l: InboxView, k: Seq<u8>)
    ensures
        spec_find_key(l, k) == -1 || (0 <= spec_find_key(l, k) < l.len() && l[spec_find_key(
            l,
            k,
        )].0 == k),
    decreases l.len(),
{
    if l.len() > 0 && l[0].0 != k {
        lemma_find_key(l.drop_first(), k);
    }
}

/// Delivering one payload to a target: appended to its entry when the
/// target is present, in a fresh entry at the end otherwise.
pub open spec fn spec_push_msg(l: InboxView, target: Seq<u8>, payload: Seq<u8>) -> InboxView {
    let i = spec_find_key(l, target);
    if i == -1 {
        l.push((target, seq![payload]))
    } else {
        l.update(i, (target, l[i].1.push(payload)))
    }
}

/// The number of messages an inbox holds.
pub open spec fn spec_msg_count(l: InboxView) -> int
    decreases l.len(),
{
    if l.len() == 0 {
        0
    } else {
        l[0].1.len() + spec_msg_count(l.drop_first())
    }
}

/// The number of messages held across all inboxes.
pub open spec fn spec_total_count(ls: Seq<InboxView>) -> int
    decreases ls.len(),
{
    if ls.len() == 0 {
        0
    } else {
        spec_msg_count(ls[0]) + spec_total_count(ls.drop_first())
    }
}

pub proof fn lemma_msg_count_push(l: InboxView, e: (Seq<u8>, Seq<Seq<u8>>))
    ensures
        spec_msg_count(l.push(e)) == spec_msg_count(l) + e.1.len(),
    decreases l.len(),
{
    if l.len() == 0 {
        assert(l.push(e)[0] == e);
        assert(l.push(e).drop_first() =~= Seq::<(Seq<u8>, Seq<Seq<u8>>)>::empty());
        assert(spec_msg_count(Seq::<(Seq<u8>, Seq<Seq<u8>>)>::empty()) == 0);
        assert(spec_msg_count(l.push(e)) == e.1.len() + spec_msg_count(l.push(e).drop_first()));
    } else {
        assert(l.push(e).drop_first() =~= l.drop_first().push(e));
        lemma_msg_count_push(l.drop_first(), e);
    }
}

pub proof fn lemma_msg_count_update(l: InboxView, i: int, e: (Seq<u8>, Seq<Seq<u8>>))
    requires
        0 <= i < l.len(),
    ensures
        spec_msg_count(l.update(i, e)) == spec_msg_count(l) - l[i].1.len() + e.1.len(),
    decreases i,
{
    if i == 0 {
        assert(l.update(0, e).drop_first() =~= l.drop_first());
    } else {
        assert(l.update(i, e).drop_first() =~= l.drop_first().update(i - 1, e));
        lemma_msg_count_update(l.drop_first(), i - 1, e);
    }
}

/// Delivering one payload grows an inbox by exactly one message.
pub proof fn lemma_push_msg_count(l: InboxView, target: Seq<u8>, payload: Seq<u8>)
    ensures
        spec_msg_count(spec_push_msg(l, target, payload)) == spec_msg_count(l) + 1,
{
    lemma_find_key(l, target);
    let i = spec_find_key(l, target);
    if i == -1 {
        lemma_msg_count_push(l, (target, seq![payload]));
    } else {
        lemma_msg_count_update(l, i, (target, l[i].1.push(payload)));
    }
}

pub proof fn lemma_total_count_update(ls: Seq<InboxView>, p: int, e: InboxView)
    requires
        0 <= p < ls.len(),
    ensures
        spec_total_count(ls.update(p, e)) == spec_total_count(ls) - spec_msg_count(ls[p])
            + spec_msg_count(e),
    decreases p,
{
    if p == 0 {
        assert(ls.update(0, e).drop_first() =~= ls.drop_first());
    } else {
        assert(ls.update(p, e).drop_first() =~= ls.drop_first().update(p - 1, e));
        lemma_total_count_update(ls.drop_first(), p - 1, e);
    }
}

/// Routing one message into the inbox of the partition that owns its target.
pub open spec fn spec_route_one(
    inboxes: Seq<InboxView>,
    partitions: int,
    target: Seq<u8>,
    payload: Seq<u8>,
) -> Seq<InboxView> {
    let p = spec_partition_of(target, partitions);
    inboxes.update(p, spec_push_msg(inboxes[p], target, payload))
}

/// Routing a whole outbox, message by message, in order.
pub open spec fn spec_route(
    outbox: Seq<(Seq<u8>, Seq<u8>)>,
    partitions: int,
    inboxes: Seq<InboxView>,
) -> Seq<InboxView>
    decreases outbox.len(),
{
    if outbox.len() == 0 {
        inboxes
    } else {
        spec_route(
            outbox.drop_first(),
            partitions,
            spec_route_one(inboxes, partitions, outbox[0].0, outbox[0].1),
        )
    }
}

/// Shuffle conservation: routing an outbox into inboxes raises their total
/// message count by exactly the size of the outbox.
pub proof fn lemma_shuffle_conservation(
    outbox: Seq<(Seq<u8>, Seq<u8>)>,
    partitions: int,
    inboxes: Seq<InboxView>,
)
    requires
        inboxes.len() >= 1,
        inboxes.len() >= partitions,
    ensures
        spec_total_count(spec_route(outbox, partitions, inboxes)) == spec_total_count(inboxes)
            + outbox.len(),
    decreases outbox.len(),
{
    if outbox.len() > 0 {
        let t = outbox[0].0;
        let m = outbox[0].1;
        let p = spec_partition_of(t, partitions);
        let next = spec_route_one(inboxes, partitions, t, m);
        assert(0 <= p < inboxes.len());
        lemma_push_msg_count(inboxes[p], t, m);
        lemma_total_count_update(inboxes, p, spec_push_msg(inboxes[p], t, m));
        lemma_shuffle_conservation(outbox.drop_first(), partitions, next);
    }
}

impl Inbox {
    /// An empty inbox.
    pub fn new() -> (r: Self)
        ensures
            r@ == Seq::<(Seq<u8>, Seq<Seq<u8>>)>::empty(),
    {
        let r = Inbox { entries: Vec::new() };
        proof {
            assert(r@ =~= Seq::<(Seq<u8>, Seq<Seq<u8>>)>::empty());
        }
        r
    }

    /// How many entries the inbox holds (one per distinct target).
    pub fn entry_count(&self) -> (r: usize)
        ensures
            r == self@.len(),
    {
        self.entries.len()
    }

    /// The entries of the inbox: each target with its payloads, in the order
    /// the targets first arrived.
    pub fn entries(&self) -> (r: &Vec<(Vec<u8>, Vec<Vec<u8>>)>)
        ensures
            crate::wire::view_entry_list(r@) == self@,
    {
        &self.entries
    }

    /// Take the entries out, leaving the inbox empty.
    pub fn take_entries(&mut self) -> (r: Vec<(Vec<u8>, Vec<Vec<u8>>)>)
        ensures
            crate::wire::view_entry_list(r@) == old(self)@,
            final(self)@ == Seq::<(Seq<u8>, Seq<Seq<u8>>)>::empty(),
    {
        let mut out: Vec<(Vec<u8>, Vec<Vec<u8>>)> = Vec::new();
        core::mem::swap(&mut out, &mut self.entries);
        proof {
            assert(self@ =~= Seq::<(Seq<u8>, Seq<Seq<u8>>)>::empty());
        }
        out
    }

    /// Rebuild an inbox from entries, as when a checkpointed inbox is read
    /// back.
    pub fn from_entries(entries: Vec<(Vec<u8>, Vec<Vec<u8>>)>) -> (r: Self)
        ensures
            r@ == crate::wire::view_entry_list(entries@),
    {
        Inbox { entries }
    }

    /// Deliver one payload to a target.
    pub fn push_msg(&mut self, target: Vec<u8>, payload: Vec<u8>)
        ensures
            final(self)@ == spec_push_msg(old(self)@, target@, payload@),
    {
        let n = self.entries.len();
        let mut i: usize = 0;
        proof {
            assert(self@.skip(0) =~= self@);
        }
        while i < n
            invariant
                i <= n,
                n == self.entries@.len(),
                self@ == old(self)@,
                spec_find_key(self@.skip(i as int), target@) == -1 ==> spec_find_key(
                    self@,
                    target@,
                ) == -1,
                spec_find_key(self@.skip(i as int), target@) >= 0 ==> spec_find_key(self@, target@)
                    == spec_find_key(self@.skip(i as int), target@) + i,
                forall|j: int| 0 <= j < i ==> #[trigger] self@[j].0 != target@,
            decreases n - i,
        {
            let hit = {
                let e = &self.entries[i];
                vecs_equal(&e.0, &target)
            };
            if hit {
                proof {
                    lemma_find_skip(self@, target@, i as int);
                }
                let ghost pre = self@;
                let entry = vstd::std_specs::vec::vec_index_mut(&mut self.entries, i);
                entry.1.push(payload);
                proof {
                    assert(self@ =~~= pre.update(
                        i as int,
                        (pre[i as int].0, pre[i as int].1.push(payload@)),
                    ));
                    assert(pre[i as int].0 == target@);
                    assert(spec_find_key(pre, target@) == i as int) by {
                        lemma_find_skip(pre, target@, i as int);
                    }
                }
                return ;
            }
            proof {
                lemma_find_skip_step(self@, target@, i as int);
            }
            i += 1;
        }
        proof {
            assert(self@.skip(n as int) =~= Seq::<(Seq<u8>, Seq<Seq<u8>>)>::empty());
            assert(spec_find_key(self@, target@) == -1);
        }
        let ghost pre = self@;
        self.entries.push((target, vec_one(payload)));
        proof {
            assert(self@ =~~= pre.push((target@, seq![payload@])));
        }
    }
}

/// A one-element vector.
fn vec_one(payload: Vec<u8>) -> (r: Vec<Vec<u8>>)
    ensures
        r@.len() == 1,
        r@[0] == payload,
{
    let mut r: Vec<Vec<u8>> = Vec::new();
    r.push(payload);
    r
}

/// Byte-vector equality, reflected to the views.
pub fn vecs_equal(a: &Vec<u8>, b: &Vec<u8>) -> (r: bool)
    ensures
        r <==> a@ == b@,
{
    if a.len() != b.len() {
        proof {
            assert(a@ != b@);
        }
        return false;
    }
    let n = a.len();
    let mut i: usize = 0;
    while i < n
        invariant
            i <= n,
            n == a@.len(),
            n == b@.len(),
            forall|j: int| 0 <= j < i ==> a@[j] == b@[j],
        decreases n - i,
    {
        if a[i] != b[i] {
            proof {
                assert(a@[i as int] != b@[i as int]);
            }
            return false;
        }
        i += 1;
    }
    proof {
        assert(a@ =~= b@);
    }
    true
}

/// Finding a key after skipping `i` entries that do not hold it.
pub proof fn lemma_find_skip(l: InboxView, k: Seq<u8>, i: int)
    requires
        0 <= i < l.len(),
        forall|j: int| 0 <= j < i ==> #[trigger] l[j].0 != k,
        l[i].0 == k,
    ensures
        spec_find_key(l, k) == i,
    decreases i,
{
    if i == 0 {
    } else {
        lemma_find_skip(l.drop_first(), k, i - 1);
    }
}

/// When a prefix misses the key, the find continues in the suffix.
pub proof fn lemma_find_skip_step(l: InboxView, k: Seq<u8>, i: int)
    requires
        0 <= i < l.len(),
        l[i].0 != k,
    ensures
        spec_find_key(l.skip(i + 1), k) == -1 ==> spec_find_key(l.skip(i as int), k) == -1,
        spec_find_key(l.skip(i + 1), k) >= 0 ==> spec_find_key(l.skip(i as int), k)
            == spec_find_key(l.skip(i + 1), k) + 1,
{
    assert(l.skip(i as int)[0] == l[i]);
    assert(l.skip(i as int).drop_first() =~= l.skip(i + 1));
}

/// A shuffle routes an outbox into the inboxes of the next superstep.
pub trait MessageShuffle {
    /// Route every message of `outbox` into `next_inboxes`, each landing in
    /// the partition of its target.
    fn route_outbox(&self, outbox: Outbox, partitions: usize, next_inboxes: &mut Vec<Inbox>)
        requires
            old(next_inboxes)@.len() >= 1,
            old(next_inboxes)@.len() >= partitions,
        ensures
            view_inboxes(final(next_inboxes)@) == spec_route(
                crate::wire::view_pair_list(outbox@),
                partitions as int,
                view_inboxes(old(next_inboxes)@),
            ),
    ;
}

/// The views of a vector of inboxes.
pub open spec fn view_inboxes(v: Seq<Inbox>) -> Seq<InboxView> {
    v.map_values(|i: Inbox| i@)
}

/// The driver's shuffle.
pub struct DriverShuffle;

impl MessageShuffle for DriverShuffle {
    fn route_outbox(&self, outbox: Outbox, partitions: usize, next_inboxes: &mut Vec<Inbox>) {
        route_outbox_into(outbox, partitions, next_inboxes)
    }
}

/// Route every message of `outbox` into `next_inboxes`: each lands in the
/// inbox of `partition_of(target)`, appended to its target's entry.
pub fn route_outbox_into(outbox: Outbox, partitions: usize, next_inboxes: &mut Vec<Inbox>)
    requires
        old(next_inboxes)@.len() >= 1,
        old(next_inboxes)@.len() >= partitions,
    ensures
        view_inboxes(final(next_inboxes)@) == spec_route(
            crate::wire::view_pair_list(outbox@),
            partitions as int,
            view_inboxes(old(next_inboxes)@),
        ),
{
    let ghost ob = crate::wire::view_pair_list(outbox@);
    let n = outbox.len();
    let mut rest = outbox;
    let mut k: usize = 0;
    proof {
        assert(ob.skip(0) =~= ob);
        assert(crate::wire::view_pair_list(rest@) =~= ob);
    }
    while k < n
        invariant
            k <= n,
            n == ob.len(),
            crate::wire::view_pair_list(rest@) == ob.skip(k as int),
            next_inboxes@.len() == old(next_inboxes)@.len(),
            next_inboxes@.len() >= 1,
            next_inboxes@.len() >= partitions,
            spec_route(ob, partitions as int, view_inboxes(old(next_inboxes)@)) == spec_route(
                ob.skip(k as int),
                partitions as int,
                view_inboxes(next_inboxes@),
            ),
        decreases n - k,
    {
        proof {
            assert(rest@.len() == ob.skip(k as int).len());
        }
        let (target, payload) = rest.remove(0);
        let p = partition_of_bytes(target.as_slice(), partitions);
        let ghost pre = view_inboxes(next_inboxes@);
        let inb = vstd::std_specs::vec::vec_index_mut(next_inboxes, p);
        let ghost target_v = target@;
        let ghost payload_v = payload@;
        inb.push_msg(target, payload);
        proof {
            assert(ob.skip(k as int)[0] == (target_v, payload_v));
            assert(spec_partition_of(target_v, partitions as int) == p as int);
            assert(view_inboxes(next_inboxes@) =~= pre.update(
                p as int,
                spec_push_msg(pre[p as int], target_v, payload_v),
            ));
            assert(view_inboxes(next_inboxes@) == spec_route_one(
                pre,
                partitions as int,
                target_v,
                payload_v,
            ));
            assert(ob.skip(k as int).drop_first() =~= ob.skip(k + 1));
            assert(crate::wire::view_pair_list(rest@) =~= ob.skip(k + 1));
        }
        k += 1;
    }
    proof {
        assert(ob.skip(n as int) =~= Seq::<(Seq<u8>, Seq<u8>)>::empty());
    }
}

} // verus!
// ---------------------------------------------------------------------------
// Folds of deliveries, used by the worker's inbox accumulator.
// ---------------------------------------------------------------------------

verus! {

/// Deliver a run of payloads to one target, in order.
pub open spec fn spec_push_all(l: InboxView, target: Seq<u8>, msgs: Seq<Seq<u8>>) -> InboxView
    decreases msgs.len(),
{
    if msgs.len() == 0 {
        l
    } else {
        spec_push_all(spec_push_msg(l, target, msgs[0]), target, msgs.drop_first())
    }
}

/// Merge a whole inbox slice: each entry's payloads delivered to its
/// target, entries in slice order.
pub open spec fn spec_merge_slice(l: InboxView, entries: Seq<(Seq<u8>, Seq<Seq<u8>>)>) -> InboxView
    decreases entries.len(),
{
    if entries.len() == 0 {
        l
    } else {
        spec_merge_slice(spec_push_all(l, entries[0].0, entries[0].1), entries.drop_first())
    }
}

} // verus!
