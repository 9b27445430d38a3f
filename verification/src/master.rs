//! The master: a worker registry with TTL heartbeats, discovery for
//! drivers.
//!
//! Workers register once and then heartbeat; each `GetWorkers` request first
//! purges entries older than the TTL and returns the remaining addresses in
//! sorted order. Addresses are strings the master never interprets. The
//! caller owns the clock and the sockets; the registry here is the whole
//! decision logic.

use vstd::prelude::*;
use crate::config::{spec_cfg_find, lemma_cfg_find_at, lemma_cfg_find_none};

verus! {

/// Registered workers: each address with the time it was last seen, in
/// milliseconds, in first-registration order.
pub struct MasterRegistry {
    pub entries: Vec<(String, u64)>,
}

/// The mathematical shape of the registry.
pub open spec fn view_registry(entries: Seq<(String, u64)>) -> Seq<(Seq<char>, u64)> {
    entries.map_values(|e: (String, u64)| (e.0@, e.1))
}

/// The entries still alive at `now`: last seen within the TTL.
pub open spec fn spec_alive(entries: Seq<(Seq<char>, u64)>, now: u64, ttl: u64) -> Seq<
    (Seq<char>, u64),
> {
    entries.filter(|e: (Seq<char>, u64)| now <= e.1 + ttl)
}

/// The keys of registry entries, for the find.
pub open spec fn registry_keys(entries: Seq<(Seq<char>, u64)>) -> Seq<(Seq<char>, Seq<char>)> {
    entries.map_values(|e: (Seq<char>, u64)| (e.0, Seq::<char>::empty()))
}

impl MasterRegistry {
    /// An empty registry.
    pub fn new() -> (r: Self)
        ensures
            view_registry(r.entries@) == Seq::<(Seq<char>, u64)>::empty(),
    {
        let r = MasterRegistry { entries: Vec::new() };
        proof {
            assert(view_registry(r.entries@) =~= Seq::<(Seq<char>, u64)>::empty());
        }
        r
    }

    /// Record a registration or heartbeat: the address is stamped with the
    /// current time, in place when present, appended otherwise.
    pub fn record(&mut self, worker_addr: String, now_ms: u64)
        ensures
            view_registry(final(self).entries@) == spec_record(
                view_registry(old(self).entries@),
                worker_addr@,
                now_ms,
            ),
    {
        let n = self.entries.len();
        let mut i: usize = 0;
        while i < n
            invariant
                i <= n,
                n == self.entries@.len(),
                self.entries@ == old(self).entries@,
                forall|j: int|
                    0 <= j < i ==> #[trigger] registry_keys(view_registry(self.entries@))[j].0
                        != worker_addr@,
            decreases n - i,
        {
            if self.entries[i].0 == worker_addr {
                proof {
                    lemma_cfg_find_at(
                        registry_keys(view_registry(self.entries@)),
                        worker_addr@,
                        i as int,
                    );
                }
                let ghost pre = view_registry(self.entries@);
                let entry = vstd::std_specs::vec::vec_index_mut(&mut self.entries, i);
                entry.1 = now_ms;
                proof {
                    assert(view_registry(self.entries@) =~= pre.update(
                        i as int,
                        (worker_addr@, now_ms),
                    ));
                }
                return ;
            }
            i += 1;
        }
        proof {
            lemma_cfg_find_none(registry_keys(view_registry(self.entries@)), worker_addr@);
        }
        let ghost pre = view_registry(self.entries@);
        self.entries.push((worker_addr, now_ms));
        proof {
            assert(view_registry(self.entries@) =~= pre.push(
                (view_registry(self.entries@).last().0, now_ms),
            ));
        }
    }

    /// Purge entries older than the TTL and return the surviving addresses
    /// in sorted order.
    pub fn alive_workers(&mut self, now_ms: u64, ttl_ms: u64) -> (r: Vec<String>)
        requires
            ttl_ms + now_ms <= u64::MAX,
        ensures
            view_registry(final(self).entries@) == spec_alive(
                view_registry(old(self).entries@),
                now_ms,
                ttl_ms,
            ),
            r@.len() == final(self).entries@.len(),
            crate::wire::view_string_list(r@).to_multiset() == view_registry(
                final(self).entries@,
            ).map_values(|e: (Seq<char>, u64)| e.0).to_multiset(),
            forall|i: int, j: int|
                0 <= i < j < r@.len() ==> spec_str_le(#[trigger] r@[i]@, #[trigger] r@[j]@),
    {
        let ghost pre = view_registry(self.entries@);
        let n = self.entries.len();
        let mut kept: Vec<(String, u64)> = Vec::new();
        let mut rest: Vec<(String, u64)> = Vec::new();
        core::mem::swap(&mut rest, &mut self.entries);
        let mut k: usize = 0;
        proof {
            assert(view_registry(rest@) =~= pre);
            assert(pre.take(0) =~= Seq::<(Seq<char>, u64)>::empty());
            assert(pre.take(0).filter(|e: (Seq<char>, u64)| now_ms <= e.1 + ttl_ms)
                =~= Seq::<(Seq<char>, u64)>::empty());
            assert(view_registry(kept@) =~= Seq::<(Seq<char>, u64)>::empty());
        }
        while k < n
            invariant
                k <= n,
                n == pre.len(),
                rest@.len() + k == n,
                view_registry(rest@) == pre.skip(k as int),
                view_registry(kept@) == pre.take(k as int).filter(
                    |e: (Seq<char>, u64)| now_ms <= e.1 + ttl_ms,
                ),
                ttl_ms + now_ms <= u64::MAX,
            decreases n - k,
        {
            proof {
                assert(rest@.len() == pre.skip(k as int).len());
            }
            let ghost prev = rest@;
            let ghost prev_kept = kept@;
            let (addr, last) = rest.remove(0);
            let ghost av = addr@;
            let alive = now_ms <= u64_saturating_add(last, ttl_ms);
            proof {
                assert(view_registry(prev)[0] == (av, last));
                assert(pre.skip(k as int)[0] == (av, last));
                assert(pre[k as int] == (av, last));
                assert(pre.take(k + 1).drop_last() =~= pre.take(k as int));
                assert(pre.take(k + 1).last() == pre[k as int]);
                reveal(Seq::filter);
            }
            if alive {
                kept.push((addr, last));
                proof {
                    assert(view_registry(kept@) =~= view_registry(prev_kept).push((av, last)));
                }
            }
            proof {
                assert forall|q: int|
                    0 <= q < rest@.len() implies view_registry(rest@)[q] == pre.skip(k + 1)[q] by {
                    assert(rest@[q] == prev[q + 1]);
                    assert(view_registry(prev)[q + 1] == (prev[q + 1].0@, prev[q + 1].1));
                    assert(pre.skip(k as int)[q + 1] == pre[k + 1 + q]);
                }
                assert(view_registry(rest@) =~= pre.skip(k + 1));
            }
            k += 1;
        }
        proof {
            assert(pre.take(n as int) =~= pre);
        }
        self.entries = kept;
        let mut out: Vec<String> = Vec::new();
        let m = self.entries.len();
        let mut i: usize = 0;
        while i < m
            invariant
                i <= m,
                m == self.entries@.len(),
                out@.len() == i,
                crate::wire::view_string_list(out@) == view_registry(self.entries@).map_values(
                    |e: (Seq<char>, u64)| e.0,
                ).take(i as int),
            decreases m - i,
        {
            let ghost all = view_registry(self.entries@).map_values(|e: (Seq<char>, u64)| e.0);
            let ghost prev_out = out@;
            out.push(self.entries[i].0.clone());
            proof {
                assert forall|q: int|
                    0 <= q < i + 1 implies crate::wire::view_string_list(out@)[q] == all.take(
                    i + 1,
                )[q] by {
                    if q < i {
                        assert(out@[q] == prev_out[q]);
                        assert(crate::wire::view_string_list(prev_out)[q] == prev_out[q]@);
                        assert(all.take(i as int)[q] == all[q]);
                    } else {
                        assert(out@[q]@ == self.entries@[i as int].0@);
                        assert(all[i as int] == view_registry(self.entries@)[i as int].0);
                    }
                }
                assert(crate::wire::view_string_list(out@) =~= all.take(i + 1));
            }
            i += 1;
        }
        proof {
            let all = view_registry(self.entries@).map_values(|e: (Seq<char>, u64)| e.0);
            assert(all.take(m as int) =~= all);
        }
        let r = sort_strings(out);
        r
    }
}

/// Stamping an address: updated in place when present, appended otherwise.
pub open spec fn spec_record(entries: Seq<(Seq<char>, u64)>, addr: Seq<char>, now: u64) -> Seq<
    (Seq<char>, u64),
> {
    let i = spec_cfg_find(registry_keys(entries), addr);
    if i == -1 {
        entries.push((addr, now))
    } else {
        entries.update(i, (addr, now))
    }
}

/// Saturating addition on 64-bit times.
fn u64_saturating_add(a: u64, b: u64) -> (r: u64)
    ensures
        r as int == if a + b <= u64::MAX {
            a as int + b as int
        } else {
            u64::MAX as int
        },
{
    if a <= u64::MAX - b {
        a + b
    } else {
        u64::MAX
    }
}

/// A string earlier than or equal to another in byte order.
pub open spec fn spec_str_le(a: Seq<char>, b: Seq<char>) -> bool
    decreases a.len(),
{
    if a.len() == 0 {
        true
    } else if b.len() == 0 {
        false
    } else if a[0] == b[0] {
        spec_str_le(a.drop_first(), b.drop_first())
    } else {
        (a[0] as u32) < (b[0] as u32)
    }
}

/// Relies on `<[String]>::sort` and the `Ord` of `String`: the result holds
/// exactly the given strings, in nondecreasing lexicographic order of their
/// characters.
#[verifier::external_body]
pub fn sort_strings(v: Vec<String>) -> (r: Vec<String>)
    ensures
        crate::wire::view_string_list(r@).to_multiset() == crate::wire::view_string_list(
            v@,
        ).to_multiset(),
        r@.len() == v@.len(),
        forall|i: int, j: int|
            0 <= i < j < r@.len() ==> spec_str_le(#[trigger] r@[i]@, #[trigger] r@[j]@),
{
    let mut v = v;
    v.sort();
    v
}

} // verus!
