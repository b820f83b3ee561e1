//! How many connections the proxy serves at once.
use vstd::prelude::*;

use super::requests::MAX_REQUEST_SIZE;
use super::responses::write_error;

verus! {

/// A bound on the connections that are served at the same time.
pub struct ConnectionLimit {
    active: usize,
    max: usize,
}

impl ConnectionLimit {
    /// The connections that are served.
    pub closed spec fn serving(self) -> nat {
        self.active as nat
    }

    /// The bound.
    pub closed spec fn bound(self) -> nat {
        self.max as nat
    }

    #[verifier::type_invariant]
    spec fn well_formed(self) -> bool {
        self.active <= self.max
    }

    /// A bound with no connection.
    pub fn new(max: usize) -> (limit: Self)
        ensures
            limit.serving() == 0,
            limit.bound() == max,
    {
        ConnectionLimit { active: 0, max }
    }

    /// The number of connections that are served. It never exceeds the bound.
    pub fn active(&self) -> (count: usize)
        ensures
            count == self.serving(),
            count <= self.bound(),
    {
        proof {
            use_type_invariant(self);
        }
        self.active
    }

    /// Takes a place, or says how many are taken when none is free.
    pub fn try_acquire(&mut self) -> (taken: Result<(), usize>)
        ensures
            final(self).bound() == old(self).bound(),
            match taken {
                Ok(_) => old(self).serving() < old(self).bound() && final(self).serving() == old(
                    self,
                ).serving() + 1,
                Err(current) => old(self).serving() >= old(self).bound() && current == old(
                    self,
                ).serving() && final(self).serving() == old(self).serving(),
            },
    {
        proof {
            use_type_invariant(&*self);
        }
        if self.active < self.max {
            self.active = self.active + 1;
            Ok(())
        } else {
            Err(self.active)
        }
    }

    /// Gives a place back.
    pub fn release(&mut self)
        requires
            old(self).serving() > 0,
        ensures
            final(self).bound() == old(self).bound(),
            final(self).serving() == old(self).serving() - 1,
    {
        proof {
            use_type_invariant(&*self);
        }
        self.active = self.active - 1;
    }
}

/// The most that is read from a refused client at once.
pub const DRAIN_CHUNK: usize = 1024;

/// The most that the next read from a refused client may take, behind that many bytes.
pub open spec fn drain_size(drained: usize) -> Option<usize> {
    if drained >= MAX_REQUEST_SIZE {
        None
    } else if MAX_REQUEST_SIZE - drained < DRAIN_CHUNK {
        Some((MAX_REQUEST_SIZE - drained) as usize)
    } else {
        Some(DRAIN_CHUNK)
    }
}

/// The most that the next read from a refused client may take, or nothing when as much as a whole
/// request was read.
pub fn next_drain(drained: usize) -> (size: Option<usize>)
    ensures
        size == drain_size(drained),
{
    if drained >= MAX_REQUEST_SIZE {
        return None;
    }
    let remaining: usize = MAX_REQUEST_SIZE - drained;
    if remaining < DRAIN_CHUNK {
        Some(remaining)
    } else {
        Some(DRAIN_CHUNK)
    }
}

/// What a client is answered that finds every place taken.
pub fn reject_over_capacity() -> (response: String)
    ensures
        response@ == super::responses::error_text(
            503,
            "workmux network proxy connection limit reached"@,
        ),
{
    write_error(503, "workmux network proxy connection limit reached")
}

/// What a refused client sends is read up to the size of a whole request, in pieces of up to a kibibyte, and no
/// further.
pub proof fn draining_is_bounded(drained: usize)
    ensures
        drain_size(drained) is None <==> drained >= 8192,
        drain_size(drained) matches Some(size) ==> 0 < size <= 1024 && drained + size <= 8192 && (size
            == 1024 || drained + size == 8192),
{
}

} // verus!
