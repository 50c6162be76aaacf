//! The archive's path-hashing scheme: a 64-bit FNV-1a fold over the
//! path's characters. The container stores no plaintext paths, only these
//! hashes, so lookup and name recovery both go through `path_hash`.
use vstd::prelude::*;

verus! {

pub const FNV_OFFSET: u64 = 0xcbf2_9ce4_8422_2325;

pub const FNV_PRIME: u64 = 0x0000_0100_0000_01b3;

pub open spec fn fnv_step(h: u64, c: char) -> u64 {
    (((h ^ ((c as u32) as u64)) as nat * FNV_PRIME as nat) % 0x1_0000_0000_0000_0000) as u64
}

pub open spec fn path_hash_from(s: Seq<char>, h: u64) -> u64
    decreases s.len(),
{
    if s.len() == 0 {
        h
    } else {
        path_hash_from(s.drop_first(), fnv_step(h, s.first()))
    }
}

/// The hash under which an entry with this path is addressed.
pub open spec fn path_hash(s: Seq<char>) -> u64 {
    path_hash_from(s, FNV_OFFSET)
}

/// Computes `path_hash` of a path string.
pub fn hash_str(s: &str) -> (h: u64)
    ensures
        h == path_hash(s@),
{
    let n = s.unicode_len();
    let mut h: u64 = FNV_OFFSET;
    let mut i: usize = 0;
    proof {
        assert(s@.skip(0) =~= s@);
    }
    while i < n
        invariant
            i <= n,
            path_hash(s@) == path_hash_from(s@.skip(i as int), h),
        decreases n - i,
    {
        let c = s.get_char(i);
        h = (h ^ ((c as u32) as u64)).wrapping_mul(FNV_PRIME);
        i = i + 1;
        proof {
            assert(s@.skip(i - 1).drop_first() =~= s@.skip(i as int));
            assert(s@.skip(i - 1).first() == s@[i - 1]);
        }
    }
    proof {
        assert(s@.skip(n as int) =~= Seq::<char>::empty());
    }
    h
}

} // verus!
