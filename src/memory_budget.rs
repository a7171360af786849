//! The memory-budget arbiter: how many bytes are in use, and the admission
//! rules that keep a pending decompression from being starved by
//! decryptions.
//!
//! This is the arbiter's state and its decisions; callers keep it under a
//! mutex and wait on a condition variable until an admission succeeds.
use vstd::prelude::*;

verus! {

/// The arbiter's state, all in bytes.
#[derive(Debug, Clone, Copy)]
pub struct MemoryPool {
    used: usize,
    waiting_decompression: usize,
    reserved_for_decompression: usize,
    limit: usize,
}

impl MemoryPool {
    pub closed spec fn used_bytes(&self) -> nat {
        self.used as nat
    }

    pub closed spec fn waiting(&self) -> nat {
        self.waiting_decompression as nat
    }

    pub closed spec fn reserved(&self) -> nat {
        self.reserved_for_decompression as nat
    }

    pub closed spec fn ceiling(&self) -> nat {
        self.limit as nat
    }

    /// No more than the limit is in use, and bytes are reserved only while a
    /// decompression waits.
    pub open spec fn wf(&self) -> bool {
        &&& self.used_bytes() <= self.ceiling()
        &&& self.reserved() <= self.ceiling()
        &&& self.reserved() != 0 ==> self.waiting() > 0
    }

    /// An arbiter with nothing in use.
    pub fn new(limit: usize) -> (r: Self)
        ensures
            r.wf(),
            r.used_bytes() == 0,
            r.waiting() == 0,
            r.reserved() == 0,
            r.ceiling() == limit,
    {
        MemoryPool { used: 0, waiting_decompression: 0, reserved_for_decompression: 0, limit }
    }

    pub fn limit(&self) -> (r: usize)
        ensures
            r == self.ceiling(),
    {
        self.limit
    }

    /// Bytes in use.
    pub fn used(&self) -> (r: usize)
        ensures
            r == self.used_bytes(),
    {
        self.used
    }

    /// How many decompressions are registered and not yet admitted.
    pub fn waiting_decompressions(&self) -> (r: usize)
        ensures
            r == self.waiting(),
    {
        self.waiting_decompression
    }

    /// Whether a request of `bytes` can ever be admitted; a larger one is
    /// fatal, since it would wait forever.
    pub fn can_hold(&self, bytes: usize) -> (r: bool)
        ensures
            r == (bytes <= self.ceiling()),
    {
        bytes <= self.limit
    }

    /// Registers a decompression that waits for `bytes`: it reserves that
    /// much against decryptions until it is admitted.
    pub fn begin_decompression(&mut self, bytes: usize)
        requires
            old(self).wf(),
            bytes <= old(self).ceiling(),
            old(self).waiting() < usize::MAX,
        ensures
            final(self).wf(),
            final(self).used_bytes() == old(self).used_bytes(),
            final(self).ceiling() == old(self).ceiling(),
            final(self).waiting() == old(self).waiting() + 1,
            final(self).reserved() == if bytes > old(self).reserved() {
                bytes as nat
            } else {
                old(self).reserved()
            },
    {
        self.waiting_decompression = self.waiting_decompression + 1;
        if bytes > self.reserved_for_decompression {
            self.reserved_for_decompression = bytes;
        }
    }

    /// Admits a registered decompression of `bytes` if they fit under the
    /// limit; the last waiting one clears the reservation.
    pub fn acquire_decompression(&mut self, bytes: usize) -> (r: bool)
        requires
            old(self).wf(),
            old(self).waiting() > 0,
        ensures
            final(self).wf(),
            final(self).ceiling() == old(self).ceiling(),
            r == (old(self).used_bytes() + bytes <= old(self).ceiling()),
            r ==> final(self).used_bytes() == old(self).used_bytes() + bytes
                && final(self).waiting() == old(self).waiting() - 1 && final(self).reserved() == (
            if final(self).waiting() == 0 {
                0
            } else {
                old(self).reserved()
            }),
            !r ==> *final(self) == *old(self),
    {
        if bytes > self.limit - self.used {
            return false;
        }
        self.waiting_decompression = self.waiting_decompression - 1;
        if self.waiting_decompression == 0 {
            self.reserved_for_decompression = 0;
        }
        self.used = self.used + bytes;
        true
    }

    /// Admits a decryption of `bytes` if they fit under the limit together
    /// with what is reserved for waiting decompressions.
    pub fn acquire_decryption(&mut self, bytes: usize) -> (r: bool)
        requires
            old(self).wf(),
        ensures
            final(self).wf(),
            final(self).ceiling() == old(self).ceiling(),
            final(self).waiting() == old(self).waiting(),
            final(self).reserved() == old(self).reserved(),
            r == (old(self).used_bytes() + bytes <= old(self).ceiling() && old(self).used_bytes()
                + bytes + old(self).reserved() <= old(self).ceiling()),
            r ==> final(self).used_bytes() == old(self).used_bytes() + bytes,
            r ==> final(self).used_bytes() + final(self).reserved() <= final(self).ceiling(),
            !r ==> *final(self) == *old(self),
    {
        let room = self.limit - self.used;
        if bytes > room || self.reserved_for_decompression > room - bytes {
            return false;
        }
        self.used = self.used + bytes;
        true
    }

    /// Gives back `bytes`.
    pub fn release(&mut self, bytes: usize)
        requires
            old(self).wf(),
            bytes <= old(self).used_bytes(),
        ensures
            final(self).wf(),
            final(self).used_bytes() == old(self).used_bytes() - bytes,
            final(self).ceiling() == old(self).ceiling(),
            final(self).waiting() == old(self).waiting(),
            final(self).reserved() == old(self).reserved(),
    {
        self.used = self.used - bytes;
    }
}

/// Once every holder has released, a waiting decompression of no more than
/// the limit is admitted.
pub proof fn lemma_idle_pool_admits_decompression(pool: MemoryPool, bytes: nat)
    requires
        pool.wf(),
        pool.used_bytes() == 0,
        bytes <= pool.ceiling(),
    ensures
        pool.used_bytes() + bytes <= pool.ceiling(),
{
}

/// While a decompression of `bytes` waits, a decryption is admitted only if
/// the waiting decompression would fit as well.
pub proof fn lemma_decryption_leaves_room(pool: MemoryPool, bytes: nat, waiting_bytes: nat)
    requires
        pool.wf(),
        waiting_bytes <= pool.reserved(),
        pool.used_bytes() + bytes + pool.reserved() <= pool.ceiling(),
    ensures
        pool.used_bytes() + bytes + waiting_bytes <= pool.ceiling(),
{
}

} // verus!
