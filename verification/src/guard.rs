//! Per-principal reentrancy guard.
//!
//! The runtime is single-threaded and cooperative: an operation runs without
//! interruption up to an external transfer call, where it suspends and other
//! calls — including for the same principal — may begin. The guard prevents a
//! second logical operation for one principal from mutating the ledger while
//! a first one is suspended: a handler acquires a [`GuardPrincipal`] lease
//! before any state mutation and releases it on every exit path.

use vstd::prelude::*;

use crate::model::{PrincipalId, StateModel, MAX_CONCURRENT};
use crate::state::State;

verus! {

/// Why a lease could not be acquired.
#[derive(Debug, PartialEq, Eq, Structural, Clone, Copy)]
pub enum GuardError {
    /// A lease for this principal is already held.
    AlreadyProcessing,
    /// The concurrency ceiling [`MAX_CONCURRENT`] is reached.
    TooManyConcurrentRequests,
}

/// A held lease of the reentrancy guard for one principal. Its holder must
/// hand it back through [`GuardPrincipal::release`] (or a consuming commit
/// function) on every exit path.
#[derive(Debug)]
#[must_use]
pub struct GuardPrincipal {
    principal: PrincipalId,
}

/// Acquiring a lease appends the principal to the guard set; everything else
/// stays. Well-formedness is preserved and afterwards the lease is held, all
/// other principals unaffected.
pub proof fn lemma_acquire(m: StateModel, p: PrincipalId)
    requires
        m.wf(),
        m.can_acquire(p),
    ensures
        m.acquire(p).wf(),
        m.acquire(p).guard_held(p),
        !m.acquire(p).can_acquire(p),
        forall|q: PrincipalId| q != p ==> m.acquire(p).guard_held(q) == m.guard_held(q),
{
    let g = m.guards;
    let g2 = m.acquire(p).guards;
    assert(forall|k: int| 0 <= k < g.len() ==> g[k] != p);
    assert(g2[g.len() as int] == p);
    assert(m.acquire(p).guard_held(p));
    assert forall|q: PrincipalId| q != p implies m.acquire(p).guard_held(q) == m.guard_held(q) by {
        if g.contains(q) {
            let k = choose|k: int| 0 <= k < g.len() && g[k] == q;
            assert(g2[k] == q);
        }
        if g2.contains(q) {
            let k = choose|k: int| 0 <= k < g2.len() && g2[k] == q;
            assert(g[k] == q);
        }
    }
}

/// Releasing a lease removes exactly that principal from the guard set:
/// afterwards no lease for it is held, every other principal is unaffected,
/// and well-formedness is preserved.
pub proof fn lemma_release(m: StateModel, p: PrincipalId)
    requires
        m.wf(),
    ensures
        m.release(p).wf(),
        !m.release(p).guard_held(p),
        forall|q: PrincipalId| q != p ==> m.release(p).guard_held(q) == m.guard_held(q),
        m.guard_held(p) ==> m.release(p).guards.len() == m.guards.len() - 1,
{
    let g = m.guards;
    if g.contains(p) {
        g.index_of_first_ensures(p);
        let i = g.index_of_first(p)->Some_0;
        g.remove_ensures(i);
        let g2 = m.release(p).guards;
        assert(g2 == g.remove(i));
        assert forall|k: int| 0 <= k < g2.len() implies g2[k] != p by {
            if k < i {
                assert(g2[k] == g[k]);
            } else {
                assert(g2[k] == g[k + 1]);
            }
        }
        assert(!g2.contains(p));
        assert forall|a: int, b: int| 0 <= a < b < g2.len() implies g2[a] != g2[b] by {
            let a0 = if a < i { a } else { a + 1 };
            let b0 = if b < i { b } else { b + 1 };
            assert(g2[a] == g[a0] && g2[b] == g[b0]);
        }
        assert forall|q: PrincipalId| q != p implies m.release(p).guard_held(q) == m.guard_held(
            q,
        ) by {
            if g.contains(q) {
                let k = choose|k: int| 0 <= k < g.len() && g[k] == q;
                if k < i {
                    assert(g2[k] == q);
                } else {
                    assert(g2[k - 1] == q);
                }
                assert(g2.contains(q));
            }
            if g2.contains(q) {
                let k = choose|k: int| 0 <= k < g2.len() && g2[k] == q;
                if k < i {
                    assert(g[k] == q);
                } else {
                    assert(g[k + 1] == q);
                }
                assert(g.contains(q));
            }
        }
    }
}

impl GuardPrincipal {
    /// The principal this lease was granted for.
    pub closed spec fn principal(self) -> PrincipalId {
        self.principal
    }

    /// The principal this lease was granted for.
    pub fn principal_id(&self) -> (r: PrincipalId)
        ensures
            r == self.principal(),
    {
        self.principal
    }

    /// Attempts to acquire a lease for `principal`. Fails with
    /// `AlreadyProcessing` if one is already held for it, and with
    /// `TooManyConcurrentRequests` if [`MAX_CONCURRENT`] leases are held;
    /// in either failure the state is untouched.
    pub fn new(s: &mut State, principal: PrincipalId) -> (r: Result<GuardPrincipal, GuardError>)
        requires
            old(s)@.wf(),
        ensures
            final(s)@.wf(),
            match r {
                Ok(g) => {
                    &&& g.principal() == principal
                    &&& old(s)@.can_acquire(principal)
                    &&& final(s)@ == old(s)@.acquire(principal)
                    &&& final(s)@.guard_held(principal)
                },
                Err(GuardError::AlreadyProcessing) => {
                    &&& old(s)@.guard_held(principal)
                    &&& *final(s) == *old(s)
                },
                Err(GuardError::TooManyConcurrentRequests) => {
                    &&& !old(s)@.guard_held(principal)
                    &&& old(s)@.guards.len() >= MAX_CONCURRENT
                    &&& *final(s) == *old(s)
                },
            },
    {
        match s.find_guard(principal) {
            Some(_) => Err(GuardError::AlreadyProcessing),
            None => {
                if s.principal_guards.len() >= MAX_CONCURRENT {
                    return Err(GuardError::TooManyConcurrentRequests);
                }
                proof {
                    lemma_acquire(s@, principal);
                }
                s.principal_guards.push(principal);
                proof {
                    assert(s@ =~~= old(s)@.acquire(principal));
                }
                Ok(GuardPrincipal { principal })
            },
        }
    }

    /// Hands the lease back: the guard set no longer holds this principal,
    /// every other lease is unaffected, and nothing else of the state
    /// changes.
    pub fn release(self, s: &mut State)
        requires
            old(s)@.wf(),
        ensures
            final(s)@.wf(),
            final(s)@ == old(s)@.release(self.principal()),
            !final(s)@.guard_held(self.principal()),
            forall|q: PrincipalId|
                q != self.principal() ==> final(s)@.guard_held(q) == old(s)@.guard_held(q),
    {
        proof {
            lemma_release(s@, self.principal);
        }
        match s.find_guard(self.principal) {
            Some(i) => {
                proof {
                    s@.guards.index_of_first_ensures(self.principal);
                }
                s.principal_guards.remove(i);
                proof {
                    assert(s@ =~~= old(s)@.release(self.principal));
                }
            },
            None => {
                proof {
                    assert(s@ =~~= old(s)@.release(self.principal));
                }
            },
        }
    }
}

} // verus!
