use vstd::prelude::*;

verus! {

/// The initial state of the 32-bit FNV-1a hash, widened to 64 bits.
pub const FNV_OFFSET_BASIS: u64 = 2166136261;

/// The 32-bit FNV prime.
pub const FNV_PRIME: u64 = 16777619;

/// One step of FNV-1a: mix in a byte, then multiply by the prime modulo 2^64.
pub open spec fn fnv_step(hash: u64, byte: u8) -> u64 {
    (((hash ^ (byte as u64)) as u128) * (FNV_PRIME as u128)) as u64
}

/// The state reached from `hash` after mixing in `bytes` in order.
pub open spec fn fnv_hash(hash: u64, bytes: Seq<u8>) -> u64
    decreases bytes.len(),
{
    if bytes.len() == 0 {
        hash
    } else {
        fnv_step(fnv_hash(hash, bytes.drop_last()), bytes.last())
    }
}

/// Hashing is streaming: writing `a` and then `b` leaves the hasher where
/// writing `a` followed by `b` in one go does.
pub proof fn lemma_fnv_hash_concat(hash: u64, a: Seq<u8>, b: Seq<u8>)
    ensures
        fnv_hash(fnv_hash(hash, a), b) == fnv_hash(hash, a + b),
    decreases b.len(),
{
    if b.len() == 0 {
        assert(a + b =~= a);
    } else {
        lemma_fnv_hash_concat(hash, a, b.drop_last());
        assert((a + b).drop_last() =~= a + b.drop_last());
        assert((a + b).last() == b.last());
    }
}

/// A hasher computing FNV-1a over the bytes written to it.
pub struct FnvHasher {
    hash: u64,
}

impl FnvHasher {
    /// The current hash value.
    pub closed spec fn state(&self) -> u64 {
        self.hash
    }

    /// A hasher in the initial state.
    pub fn new() -> (h: Self)
        ensures
            h.state() == FNV_OFFSET_BASIS,
    {
        FnvHasher::default()
    }

    /// Mixes in the bytes of `msg`, in order.
    pub fn write(&mut self, msg: &[u8])
        ensures
            final(self).state() == fnv_hash(old(self).state(), msg@),
    {
        let mut i: usize = 0;
        while i < msg.len()
            invariant
                i <= msg@.len(),
                self.hash == fnv_hash(old(self).hash, msg@.take(i as int)),
            decreases msg@.len() - i,
        {
            let c = msg[i];
            self.hash = self.hash ^ (c as u64);
            self.hash = ((self.hash as u128) * (FNV_PRIME as u128)) as u64;
            assert(msg@.take((i + 1) as int).drop_last() =~= msg@.take(i as int));
            i = i + 1;
        }
        assert(msg@.take(i as int) =~= msg@);
    }

    /// The hash of the bytes written so far.
    pub fn finish(&self) -> (h: u64)
        ensures
            h == self.state(),
    {
        self.hash
    }
}

impl Default for FnvHasher {
    fn default() -> (h: Self)
        ensures
            h.state() == FNV_OFFSET_BASIS,
    {
        FnvHasher { hash: FNV_OFFSET_BASIS }
    }
}

impl std::hash::Hasher for FnvHasher {
    fn write(&mut self, msg: &[u8])
        ensures
            final(self).state() == fnv_hash(old(self).state(), msg@),
    {
        FnvHasher::write(self, msg)
    }

    fn finish(&self) -> (h: u64)
        ensures
            h == self.state(),
    {
        FnvHasher::finish(self)
    }
}

/// The value of eight bytes read least significant first.
pub open spec fn u64_le(b: Seq<u8>) -> int {
    b[0] as int + 0x100 * (b[1] as int + 0x100 * (b[2] as int + 0x100 * (b[3] as int + 0x100 * (
    b[4] as int + 0x100 * (b[5] as int + 0x100 * (b[6] as int + 0x100 * b[7] as int))))))
}

/// The value of eight bytes read most significant first.
pub open spec fn u64_be(b: Seq<u8>) -> int {
    u64_le(b.reverse())
}

/// Reads eight bytes in the machine's byte order (`u64::from_ne_bytes`):
/// the little-endian or the big-endian reading, whichever the machine uses.
#[verifier::external_body]
fn u64_from_ne_bytes(bytes: [u8; 8]) -> (r: u64)
    ensures
        r == u64_le(bytes@) || r == u64_be(bytes@),
{
    u64::from_ne_bytes(bytes)
}

/// A hasher that takes an eight-byte value as its hash, unchanged.
pub struct PassThroughHasher {
    hash: u64,
}

impl PassThroughHasher {
    /// The current hash value.
    pub closed spec fn state(&self) -> u64 {
        self.hash
    }

    /// Takes the eight bytes of `msg`, read in the machine's byte order, as the hash.
    pub fn write(&mut self, msg: &[u8])
        requires
            msg@.len() == 8,
        ensures
            final(self).state() == u64_le(msg@) || final(self).state() == u64_be(msg@),
    {
        let bytes: [u8; 8] = [msg[0], msg[1], msg[2], msg[3], msg[4], msg[5], msg[6], msg[7]];
        assert(bytes@ =~= msg@);
        self.hash = u64_from_ne_bytes(bytes);
    }

    /// Takes `n` as the hash: what writing its eight bytes in the
    /// machine's byte order amounts to.
    pub fn write_u64(&mut self, n: u64)
        ensures
            final(self).state() == n,
    {
        self.hash = n;
    }

    /// The hash taken.
    pub fn finish(&self) -> (h: u64)
        ensures
            h == self.state(),
    {
        self.hash
    }
}

impl Default for PassThroughHasher {
    fn default() -> (h: Self)
        ensures
            h.state() == 0,
    {
        PassThroughHasher { hash: 0 }
    }
}

/// Builds pass-through hashers.
#[derive(Clone, Copy, Debug)]
pub struct BuildPassThroughHasher;

impl BuildPassThroughHasher {
    /// A fresh pass-through hasher, with hash 0.
    pub fn build_hasher(&self) -> (h: PassThroughHasher)
        ensures
            h.state() == 0,
    {
        PassThroughHasher::default()
    }
}

impl Default for BuildPassThroughHasher {
    fn default() -> (b: Self) {
        BuildPassThroughHasher
    }
}

} // verus!
