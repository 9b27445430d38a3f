//! The partitioner: a stable mapping from vertex-key bytes to a partition
//! index.
//!
//! Placement of every vertex, edge and message is decided here and nowhere
//! else, so the hash must be deterministic and identical in every process.
//! The per-process-seeded hashes of common standard libraries are therefore
//! unsuitable; this is the 64-bit FNV-1a hash, a fixed, fully specified
//! function of the key bytes alone.

use vstd::prelude::*;
use vstd::wrapping::u64_specs;

verus! {

pub const FNV_OFFSET: u64 = 0xcbf29ce484222325;

pub const FNV_PRIME: u64 = 0x100000001b3;

/// The 64-bit FNV-1a hash of a byte string.
pub open spec fn spec_fnv1a(s: Seq<u8>) -> u64
    decreases s.len(),
{
    if s.len() == 0 {
        FNV_OFFSET
    } else {
        u64_specs::wrapping_mul(spec_fnv1a(s.drop_last()) ^ (s.last() as u64), FNV_PRIME)
    }
}

/// The partition that owns a vertex key: its hash modulo the partition
/// count, with a count below one treated as one.
pub open spec fn spec_partition_of(id: Seq<u8>, partitions: int) -> int {
    spec_fnv1a(id) as int % (if partitions < 1 {
        1int
    } else {
        partitions
    })
}

/// Map vertex-key bytes to the index of the partition that owns them.
///
/// The result is a function of the bytes and the partition count alone, so
/// every process that agrees on those agrees on the placement.
pub fn partition_of_bytes(id: &[u8], partitions: usize) -> (r: usize)
    ensures
        r as int == spec_partition_of(id@, partitions as int),
        r < if partitions < 1 {
            1usize
        } else {
            partitions
        },
{
    let n = id.len();
    let mut h: u64 = FNV_OFFSET;
    let mut i: usize = 0;
    while i < n
        invariant
            i <= n,
            n == id@.len(),
            h == spec_fnv1a(id@.take(i as int)),
        decreases n - i,
    {
        h = (h ^ (id[i] as u64)).wrapping_mul(FNV_PRIME);
        proof {
            let t = id@.take(i + 1);
            assert(t.drop_last() =~= id@.take(i as int));
            assert(t.last() == id@[i as int]);
        }
        i += 1;
    }
    proof {
        assert(id@.take(n as int) =~= id@);
    }
    let m: u64 = if partitions < 1 {
        1
    } else {
        partitions as u64
    };
    (h % m) as usize
}

/// Partition stability: the partition of a key is always in range for the
/// partition count, and two equal keys land on the same partition in every
/// process, because the placement is a function of the key bytes and the
/// count alone.
pub proof fn lemma_partition_stable(a: Seq<u8>, b: Seq<u8>, partitions: int)
    requires
        partitions > 0,
        a == b,
    ensures
        spec_partition_of(a, partitions) == spec_partition_of(b, partitions),
        0 <= spec_partition_of(a, partitions) < partitions,
{
}

} // verus!
