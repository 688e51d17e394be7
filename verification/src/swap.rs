//! The swap matching engine.
//!
//! One owned service object holds the balance ledger, the swap registry and
//! the id counter, and exposes every operation as an all-or-nothing
//! transition: an operation that fails leaves the engine exactly as it was,
//! with the one documented exception of the refund-on-expiry side effect of
//! `execute_swap`. Time never comes from inside the engine: each
//! time-sensitive operation takes `now` (nanoseconds) from the caller.
//!
//! The conservation law runs through every contract: for each symbol, the
//! spendable balances plus the escrow of pending requests (`total`) move
//! only by an explicit deposit or withdrawal.

use vstd::prelude::*;
use crate::auth::is_authenticated;
use crate::ledger::{user_pairs, BalanceLedger};
use crate::registry::{
    escrow_contrib, lemma_lookup_absent, opt_view, pending_views, view_with_status, SwapRegistry,
};
use crate::types::{
    Asset, AssetView, BalanceResponse, Chain, Identity, SwapError, SwapRequest, SwapRequestView,
    SwapStatus,
};

verus! {

/// Are the two requests each offering what the other wants, on the chain the
/// other wants it on?
pub open spec fn compatible(a: SwapRequestView, b: SwapRequestView) -> bool {
    &&& a.from_asset.symbol == b.to_asset_symbol
    &&& a.from_asset.chain == b.to_chain
    &&& b.from_asset.symbol == a.to_asset_symbol
    &&& b.from_asset.chain == a.to_chain
}

/// Has the request's deadline passed at time `now`?
pub open spec fn is_expired(v: SwapRequestView, now: u64) -> bool {
    now > v.deadline
}

/// What two (possibly aliasing, possibly skipped) credits add to the balance
/// of `(o, s)`.
pub open spec fn two_credits_delta(
    u1: Seq<u8>,
    s1: Seq<char>,
    a1: u64,
    apply1: bool,
    u2: Seq<u8>,
    s2: Seq<char>,
    a2: u64,
    apply2: bool,
    o: Seq<u8>,
    s: Seq<char>,
) -> int {
    (if apply1 && o == u1 && s == s1 {
        a1 as int
    } else {
        0
    }) + (if apply2 && o == u2 && s == s2 {
        a2 as int
    } else {
        0
    })
}

proof fn lemma_ids_bound_after_remove(s0: Seq<SwapRequest>, s1: Seq<SwapRequest>, bound: u64)
    requires
        exists|i: int| 0 <= i < s0.len() && s1 == s0.remove(i),
        forall|j: int| 0 <= j < s0.len() ==> #[trigger] s0[j].id < bound,
    ensures
        forall|j: int| 0 <= j < s1.len() ==> #[trigger] s1[j].id < bound,
{
    let i = choose|i: int| 0 <= i < s0.len() && s1 == s0.remove(i);
    assert forall|j: int| 0 <= j < s1.len() implies #[trigger] s1[j].id < bound by {
        if j < i {
            assert(s1[j] == s0[j]);
        } else {
            assert(s1[j] == s0[j + 1]);
        }
    }
}

/// The engine: ledger, registry and id counter, owned together so that every
/// operation is one serialized transaction over all three.
#[derive(Debug)]
pub struct SwapEngine {
    pub ledger: BalanceLedger,
    pub registry: SwapRegistry,
    pub next_swap_id: u64,
}

impl SwapEngine {
    /// Internal invariant: both tables are well formed and every stored id
    /// was issued by the counter, so the counter's next value is fresh.
    pub open spec fn wf(self) -> bool {
        &&& self.ledger.wf()
        &&& self.registry.wf()
        &&& 1 <= self.next_swap_id
        &&& forall|j: int|
            0 <= j < self.registry.swaps@.len() ==> #[trigger] self.registry.swaps@[j].id
                < self.next_swap_id
    }

    /// The spendable balance of `(owner, symbol)`.
    pub open spec fn balance(self, owner: Seq<u8>, symbol: Seq<char>) -> u64 {
        self.ledger.balance(owner, symbol)
    }

    /// The record stored under `id`, if any.
    pub open spec fn lookup(self, id: u64) -> Option<SwapRequest> {
        self.registry.lookup(id)
    }

    /// The view of the record stored under `id` (meaningful when one exists).
    pub open spec fn req_view(self, id: u64) -> SwapRequestView {
        self.lookup(id)->Some_0@
    }

    /// The conserved quantity of `symbol`: spendable balances plus the
    /// escrow of pending requests.
    pub open spec fn total(self, symbol: Seq<char>) -> int {
        self.ledger.total(symbol) + self.registry.escrow(symbol)
    }

    /// Would both credits fit, applied together against this state? The
    /// aliasing case (same owner and symbol) must fit as one sum.
    pub open spec fn two_credits_fit(
        self,
        u1: Seq<u8>,
        s1: Seq<char>,
        a1: u64,
        apply1: bool,
        u2: Seq<u8>,
        s2: Seq<char>,
        a2: u64,
        apply2: bool,
    ) -> bool {
        if apply1 && apply2 && u1 == u2 && s1 == s2 {
            self.balance(u1, s1) + a1 + a2 <= u64::MAX
        } else {
            &&& (apply1 ==> self.balance(u1, s1) + a1 <= u64::MAX)
            &&& (apply2 ==> self.balance(u2, s2) + a2 <= u64::MAX)
        }
    }
}

/// A fresh engine: no balances, no swap requests, ids starting at 1.
pub fn init_storage() -> (e: SwapEngine)
    ensures
        e.wf(),
        e.next_swap_id == 1,
        e.ledger.entries@.len() == 0,
        e.registry.swaps@.len() == 0,
        forall|o: Seq<u8>, s: Seq<char>| #[trigger] e.balance(o, s) == 0,
        forall|id: u64| #[trigger] e.lookup(id) is None,
        forall|s: Seq<char>| #[trigger] e.total(s) == 0,
{
    SwapEngine { ledger: BalanceLedger::new(), registry: SwapRegistry::new(), next_swap_id: 1 }
}

impl SwapEngine {
    /// Issue a fresh id, strictly greater than every id issued before.
    /// Exhaustion of the id space fails loudly with `Overflow` rather than
    /// ever reusing an id.
    pub fn get_next_swap_id(&mut self) -> (r: Result<u64, SwapError>)
        requires
            old(self).wf(),
        ensures
            final(self).wf(),
            final(self).ledger == old(self).ledger,
            final(self).registry == old(self).registry,
            r is Ok <==> old(self).next_swap_id < u64::MAX,
            r is Ok ==> r->Ok_0 == old(self).next_swap_id && final(self).next_swap_id == old(
                self,
            ).next_swap_id + 1,
            r is Err ==> r == Err::<u64, SwapError>(SwapError::Overflow) && *final(self) == *old(
                self,
            ),
    {
        if self.next_swap_id == u64::MAX {
            return Err(SwapError::Overflow);
        }
        let id = self.next_swap_id;
        self.next_swap_id = id + 1;
        Ok(id)
    }

    /// Record the arrival of `amount` of `asset_symbol` for `user`. Refused
    /// for the anonymous caller; fails with `Overflow` (and no change) when
    /// the balance would leave the amount type. Raises the total of
    /// `asset_symbol` by exactly `amount` and touches nothing else.
    pub fn deposit_asset(&mut self, user: &Identity, asset_symbol: &String, amount: u64) -> (r:
        Result<(), SwapError>)
        requires
            old(self).wf(),
        ensures
            final(self).wf(),
            r == Err::<(), SwapError>(SwapError::Unauthenticated) <==> user.is_anonymous(),
            !user.is_anonymous() ==> (r is Ok <==> old(self).balance(user@, asset_symbol@) + amount
                <= u64::MAX),
            !user.is_anonymous() && r is Err ==> r == Err::<(), SwapError>(SwapError::Overflow),
            r is Err ==> *final(self) == *old(self),
            r is Ok ==> final(self).balance(user@, asset_symbol@) == old(self).balance(
                user@,
                asset_symbol@,
            ) + amount,
            r is Ok ==> forall|o: Seq<u8>, s: Seq<char>|
                !(o == user@ && s == asset_symbol@) ==> #[trigger] final(self).balance(o, s) == old(
                    self,
                ).balance(o, s),
            r is Ok ==> final(self).registry == old(self).registry && final(self).next_swap_id
                == old(self).next_swap_id,
            r is Ok ==> final(self).total(asset_symbol@) == old(self).total(asset_symbol@)
                + amount,
            r is Ok ==> forall|s: Seq<char>|
                s != asset_symbol@ ==> #[trigger] final(self).total(s) == old(self).total(s),
    {
        if !is_authenticated(user) {
            return Err(SwapError::Unauthenticated);
        }
        self.ledger.credit(user, asset_symbol, amount)
    }

    /// Debit `amount` of `asset_symbol` from `user` ahead of settlement on
    /// `target_chain` at `target_address` (the settlement itself is the
    /// caller's collaborator, not the engine's concern). Refused for the
    /// anonymous caller; fails with `InsufficientFunds` (and no change) when
    /// the balance does not cover `amount`, so no balance ever goes below
    /// zero. Lowers the total of `asset_symbol` by exactly `amount`.
    pub fn withdraw_asset(
        &mut self,
        user: &Identity,
        asset_symbol: &String,
        amount: u64,
        target_chain: Chain,
        target_address: &String,
    ) -> (r: Result<(), SwapError>)
        requires
            old(self).wf(),
        ensures
            final(self).wf(),
            r == Err::<(), SwapError>(SwapError::Unauthenticated) <==> user.is_anonymous(),
            !user.is_anonymous() ==> (r is Ok <==> old(self).balance(user@, asset_symbol@)
                >= amount),
            !user.is_anonymous() && r is Err ==> r == Err::<(), SwapError>(
                SwapError::InsufficientFunds,
            ),
            r is Err ==> *final(self) == *old(self),
            r is Ok ==> final(self).balance(user@, asset_symbol@) == old(self).balance(
                user@,
                asset_symbol@,
            ) - amount,
            r is Ok ==> forall|o: Seq<u8>, s: Seq<char>|
                !(o == user@ && s == asset_symbol@) ==> #[trigger] final(self).balance(o, s) == old(
                    self,
                ).balance(o, s),
            r is Ok ==> final(self).registry == old(self).registry && final(self).next_swap_id
                == old(self).next_swap_id,
            r is Ok ==> final(self).total(asset_symbol@) == old(self).total(asset_symbol@)
                - amount,
            r is Ok ==> forall|s: Seq<char>|
                s != asset_symbol@ ==> #[trigger] final(self).total(s) == old(self).total(s),
    {
        if !is_authenticated(user) {
            return Err(SwapError::Unauthenticated);
        }
        self.ledger.debit(user, asset_symbol, amount)
    }

    /// Open a swap: escrow `from_asset_amount` of `from_asset_symbol` out of
    /// `caller`'s balance and register a pending request for
    /// `to_asset_symbol` on `to_chain`, expiring `duration_nanos` after
    /// `now`. Everything that can fail is checked before the debit, so a
    /// failure changes nothing; on success the request's escrow exactly
    /// offsets the debit and every symbol's total is conserved.
    pub fn create_swap_request(
        &mut self,
        caller: &Identity,
        from_asset_symbol: &String,
        from_chain: Chain,
        from_asset_amount: u64,
        to_asset_symbol: &String,
        to_chain: Chain,
        duration_nanos: u64,
        now: u64,
    ) -> (r: Result<u64, SwapError>)
        requires
            old(self).wf(),
        ensures
            final(self).wf(),
            r == Err::<u64, SwapError>(SwapError::Unauthenticated) <==> caller.is_anonymous(),
            !caller.is_anonymous() ==> (r == Err::<u64, SwapError>(SwapError::InvalidInput) <==> (
            from_asset_amount == 0 || duration_nanos == 0)),
            !caller.is_anonymous() && from_asset_amount > 0 && duration_nanos > 0 ==> (r == Err::<
                u64,
                SwapError,
            >(SwapError::Overflow) <==> (now + duration_nanos > u64::MAX || old(self).next_swap_id
                == u64::MAX)),
            !caller.is_anonymous() && from_asset_amount > 0 && duration_nanos > 0 && now
                + duration_nanos <= u64::MAX && old(self).next_swap_id != u64::MAX ==> (r == Err::<
                u64,
                SwapError,
            >(SwapError::InsufficientFunds) <==> old(self).balance(caller@, from_asset_symbol@)
                < from_asset_amount),
            r is Ok <==> (!caller.is_anonymous() && from_asset_amount > 0 && duration_nanos > 0
                && now + duration_nanos <= u64::MAX && old(self).next_swap_id != u64::MAX && old(
                self,
            ).balance(caller@, from_asset_symbol@) >= from_asset_amount),
            r is Err ==> *final(self) == *old(self),
            r is Ok ==> r->Ok_0 == old(self).next_swap_id && final(self).next_swap_id == old(
                self,
            ).next_swap_id + 1,
            r is Ok ==> final(self).balance(caller@, from_asset_symbol@) == old(self).balance(
                caller@,
                from_asset_symbol@,
            ) - from_asset_amount,
            r is Ok ==> forall|o: Seq<u8>, s: Seq<char>|
                !(o == caller@ && s == from_asset_symbol@) ==> #[trigger] final(self).balance(o, s)
                    == old(self).balance(o, s),
            r is Ok ==> opt_view(final(self).lookup(r->Ok_0)) == Some(
                SwapRequestView {
                    id: old(self).next_swap_id,
                    user: caller@,
                    from_asset: AssetView {
                        chain: from_chain,
                        symbol: from_asset_symbol@,
                        amount: from_asset_amount,
                    },
                    to_asset_symbol: to_asset_symbol@,
                    to_chain,
                    deadline: (now + duration_nanos) as u64,
                    status: SwapStatus::Pending,
                },
            ),
            r is Ok ==> forall|other: u64|
                other != r->Ok_0 ==> #[trigger] final(self).lookup(other) == old(self).lookup(
                    other,
                ),
            r is Ok ==> forall|s: Seq<char>| #[trigger] final(self).total(s) == old(self).total(s),
    {
        if !is_authenticated(caller) {
            return Err(SwapError::Unauthenticated);
        }
        if from_asset_amount == 0 || duration_nanos == 0 {
            return Err(SwapError::InvalidInput);
        }
        let deadline = match now.checked_add(duration_nanos) {
            Some(d) => d,
            None => {
                return Err(SwapError::Overflow);
            },
        };
        if self.next_swap_id == u64::MAX {
            return Err(SwapError::Overflow);
        }
        let ghost m0 = *self;
        match self.ledger.debit(caller, from_asset_symbol, from_asset_amount) {
            Ok(()) => {},
            Err(e) => {
                return Err(e);
            },
        }
        let ghost m1 = *self;
        let id = self.next_swap_id;
        self.next_swap_id = id + 1;
        let swap = SwapRequest {
            id,
            user: caller.clone(),
            from_asset: Asset {
                chain: from_chain,
                symbol: from_asset_symbol.clone(),
                amount: from_asset_amount,
            },
            to_asset_symbol: to_asset_symbol.clone(),
            to_chain,
            deadline,
            status: SwapStatus::Pending,
        };
        proof {
            assert forall|j: int| 0 <= j < self.registry.swaps@.len() implies #[trigger] self
                .registry.swaps@[j].id != id by {
                assert(m0.registry.swaps@[j].id < m0.next_swap_id);
            }
            lemma_lookup_absent(self.registry.swaps@, id);
        }
        let ghost swap_g = swap;
        self.registry.add_pending_swap(swap);
        proof {
            assert forall|j: int| 0 <= j < self.registry.swaps@.len() implies #[trigger] self
                .registry.swaps@[j].id < self.next_swap_id by {
                if j < self.registry.swaps@.len() - 1 {
                    assert(self.registry.swaps@[j] == m1.registry.swaps@[j]);
                    assert(m0.registry.swaps@[j].id < m0.next_swap_id);
                }
            }
            assert(swap_g@.from_asset.symbol == from_asset_symbol@);
            assert forall|s: Seq<char>| #[trigger] final(self).total(s) == old(self).total(s) by {
                assert(self.registry.escrow(s) == m1.registry.escrow(s) + escrow_contrib(
                    swap_g@,
                    s,
                ));
                if s == from_asset_symbol@ {
                    assert(m1.ledger.total(s) == m0.ledger.total(s) - from_asset_amount);
                    assert(escrow_contrib(swap_g@, s) == from_asset_amount as int);
                } else {
                    assert(m1.ledger.total(s) == m0.ledger.total(s));
                    assert(escrow_contrib(swap_g@, s) == 0);
                }
            }
        }
        Ok(id)
    }

    /// Cancel a pending request: only its owner may, and only while it is
    /// pending. On success the escrowed amount flows back to the owner's
    /// balance and the record turns `Cancelled` (so it leaves the pending
    /// view but stays queryable); every symbol's total is conserved. Any
    /// failure, including a refund that would not fit, changes nothing.
    pub fn cancel_swap_request(&mut self, swap_id: u64, caller: &Identity) -> (r: Result<
        (),
        SwapError,
    >)
        requires
            old(self).wf(),
        ensures
            final(self).wf(),
            r == Err::<(), SwapError>(SwapError::Unauthenticated) <==> caller.is_anonymous(),
            !caller.is_anonymous() ==> (r == Err::<(), SwapError>(SwapError::NotFound) <==> old(
                self,
            ).lookup(swap_id) is None),
            !caller.is_anonymous() && old(self).lookup(swap_id) is Some ==> (r == Err::<
                (),
                SwapError,
            >(SwapError::AlreadyProcessed) <==> !(old(self).req_view(swap_id).status is Pending)),
            !caller.is_anonymous() && old(self).lookup(swap_id) is Some && old(self).req_view(
                swap_id,
            ).status is Pending ==> (r == Err::<(), SwapError>(SwapError::Unauthorized) <==> old(
                self,
            ).req_view(swap_id).user != caller@),
            !caller.is_anonymous() && old(self).lookup(swap_id) is Some && old(self).req_view(
                swap_id,
            ).status is Pending && old(self).req_view(swap_id).user == caller@ ==> (r == Err::<
                (),
                SwapError,
            >(SwapError::Overflow) <==> old(self).balance(
                old(self).req_view(swap_id).user,
                old(self).req_view(swap_id).from_asset.symbol,
            ) + old(self).req_view(swap_id).from_asset.amount > u64::MAX),
            r is Ok <==> (!caller.is_anonymous() && old(self).lookup(swap_id) is Some && old(
                self,
            ).req_view(swap_id).status is Pending && old(self).req_view(swap_id).user == caller@
                && old(self).balance(
                old(self).req_view(swap_id).user,
                old(self).req_view(swap_id).from_asset.symbol,
            ) + old(self).req_view(swap_id).from_asset.amount <= u64::MAX),
            r is Err ==> *final(self) == *old(self),
            r is Ok ==> final(self).balance(
                old(self).req_view(swap_id).user,
                old(self).req_view(swap_id).from_asset.symbol,
            ) == old(self).balance(
                old(self).req_view(swap_id).user,
                old(self).req_view(swap_id).from_asset.symbol,
            ) + old(self).req_view(swap_id).from_asset.amount,
            r is Ok ==> forall|o: Seq<u8>, s: Seq<char>|
                !(o == old(self).req_view(swap_id).user && s == old(self).req_view(
                    swap_id,
                ).from_asset.symbol) ==> #[trigger] final(self).balance(o, s) == old(self).balance(
                    o,
                    s,
                ),
            r is Ok ==> opt_view(final(self).lookup(swap_id)) == Some(
                view_with_status(old(self).req_view(swap_id), SwapStatus::Cancelled),
            ),
            r is Ok ==> forall|other: u64|
                other != swap_id ==> #[trigger] final(self).lookup(other) == old(self).lookup(
                    other,
                ),
            r is Ok ==> forall|s: Seq<char>| #[trigger] final(self).total(s) == old(self).total(s),
            r is Ok ==> final(self).next_swap_id == old(self).next_swap_id,
    {
        if !is_authenticated(caller) {
            return Err(SwapError::Unauthenticated);
        }
        let q = match self.registry.get_pending_swap(swap_id) {
            Some(q) => q,
            None => {
                return Err(SwapError::NotFound);
            },
        };
        if !(matches!(q.status, SwapStatus::Pending)) {
            return Err(SwapError::AlreadyProcessed);
        }
        if !q.user.same_as(caller) {
            return Err(SwapError::Unauthorized);
        }
        let ghost m0 = *self;
        match self.ledger.credit(&q.user, &q.from_asset.symbol, q.from_asset.amount) {
            Ok(()) => {},
            Err(_) => {
                return Err(SwapError::Overflow);
            },
        }
        let ghost m1 = *self;
        let marked = self.registry.set_status(swap_id, SwapStatus::Cancelled);
        proof {
            assert(marked);
            let qv = m0.req_view(swap_id);
            assert forall|j: int| 0 <= j < self.registry.swaps@.len() implies #[trigger] self
                .registry.swaps@[j].id < self.next_swap_id by {
                assert(self.registry.swaps@[j].id == m0.registry.swaps@[j].id);
            }
            assert forall|s: Seq<char>| #[trigger] self.total(s) == m0.total(s) by {
                assert(self.registry.escrow(s) == m1.registry.escrow(s) + escrow_contrib(
                    view_with_status(qv, SwapStatus::Cancelled),
                    s,
                ) - escrow_contrib(qv, s));
                if s == qv.from_asset.symbol {
                    assert(m1.ledger.total(s) == m0.ledger.total(s) + qv.from_asset.amount);
                } else {
                    assert(m1.ledger.total(s) == m0.ledger.total(s));
                }
            }
        }
        Ok(())
    }

    /// Refund logic for a request whose deadline has passed, as an external
    /// periodic sweep would drive it: the pending record turns `Expired` and
    /// its escrow flows back to its owner, exactly once. Fails with
    /// `InvalidInput` (and no change) while the deadline has not passed at
    /// `now`; a refund that would not fit fails with `Overflow` and changes
    /// nothing. Every symbol's total is conserved.
    pub fn expire_swap(&mut self, swap_id: u64, now: u64) -> (r: Result<(), SwapError>)
        requires
            old(self).wf(),
        ensures
            final(self).wf(),
            r == Err::<(), SwapError>(SwapError::NotFound) <==> old(self).lookup(swap_id) is None,
            old(self).lookup(swap_id) is Some ==> (r == Err::<(), SwapError>(
                SwapError::AlreadyProcessed,
            ) <==> !(old(self).req_view(swap_id).status is Pending)),
            old(self).lookup(swap_id) is Some && old(self).req_view(swap_id).status is Pending ==> (
            r == Err::<(), SwapError>(SwapError::InvalidInput) <==> !is_expired(
                old(self).req_view(swap_id),
                now,
            )),
            old(self).lookup(swap_id) is Some && old(self).req_view(swap_id).status is Pending
                && is_expired(old(self).req_view(swap_id), now) ==> (r == Err::<(), SwapError>(
                SwapError::Overflow,
            ) <==> old(self).balance(
                old(self).req_view(swap_id).user,
                old(self).req_view(swap_id).from_asset.symbol,
            ) + old(self).req_view(swap_id).from_asset.amount > u64::MAX),
            r is Ok <==> (old(self).lookup(swap_id) is Some && old(self).req_view(
                swap_id,
            ).status is Pending && is_expired(old(self).req_view(swap_id), now) && old(
                self,
            ).balance(
                old(self).req_view(swap_id).user,
                old(self).req_view(swap_id).from_asset.symbol,
            ) + old(self).req_view(swap_id).from_asset.amount <= u64::MAX),
            r is Err ==> *final(self) == *old(self),
            r is Ok ==> final(self).balance(
                old(self).req_view(swap_id).user,
                old(self).req_view(swap_id).from_asset.symbol,
            ) == old(self).balance(
                old(self).req_view(swap_id).user,
                old(self).req_view(swap_id).from_asset.symbol,
            ) + old(self).req_view(swap_id).from_asset.amount,
            r is Ok ==> forall|o: Seq<u8>, s: Seq<char>|
                !(o == old(self).req_view(swap_id).user && s == old(self).req_view(
                    swap_id,
                ).from_asset.symbol) ==> #[trigger] final(self).balance(o, s) == old(self).balance(
                    o,
                    s,
                ),
            r is Ok ==> opt_view(final(self).lookup(swap_id)) == Some(
                view_with_status(old(self).req_view(swap_id), SwapStatus::Expired),
            ),
            r is Ok ==> forall|other: u64|
                other != swap_id ==> #[trigger] final(self).lookup(other) == old(self).lookup(
                    other,
                ),
            r is Ok ==> forall|s: Seq<char>| #[trigger] final(self).total(s) == old(self).total(s),
            r is Ok ==> final(self).next_swap_id == old(self).next_swap_id,
    {
        let q = match self.registry.get_pending_swap(swap_id) {
            Some(q) => q,
            None => {
                return Err(SwapError::NotFound);
            },
        };
        if !(matches!(q.status, SwapStatus::Pending)) {
            return Err(SwapError::AlreadyProcessed);
        }
        if now <= q.deadline {
            return Err(SwapError::InvalidInput);
        }
        let ghost m0 = *self;
        match self.ledger.credit(&q.user, &q.from_asset.symbol, q.from_asset.amount) {
            Ok(()) => {},
            Err(_) => {
                return Err(SwapError::Overflow);
            },
        }
        let ghost m1 = *self;
        let marked = self.registry.set_status(swap_id, SwapStatus::Expired);
        proof {
            assert(marked);
            let qv = m0.req_view(swap_id);
            assert forall|j: int| 0 <= j < self.registry.swaps@.len() implies #[trigger] self
                .registry.swaps@[j].id < self.next_swap_id by {
                assert(self.registry.swaps@[j].id == m0.registry.swaps@[j].id);
            }
            assert forall|s: Seq<char>| #[trigger] self.total(s) == m0.total(s) by {
                assert(self.registry.escrow(s) == m1.registry.escrow(s) + escrow_contrib(
                    view_with_status(qv, SwapStatus::Expired),
                    s,
                ) - escrow_contrib(qv, s));
                if s == qv.from_asset.symbol {
                    assert(m1.ledger.total(s) == m0.ledger.total(s) + qv.from_asset.amount);
                } else {
                    assert(m1.ledger.total(s) == m0.ledger.total(s));
                }
            }
        }
        Ok(())
    }

    /// Settle two mutually compatible pending requests: each owner receives
    /// what the other escrowed, and both records leave the registry, all as
    /// one transaction — every check (including that both credits fit)
    /// happens before the first mutation, so the four mutations either all
    /// happen or none do. The one side effect a failure may have is the
    /// mandated refund on expiry: referencing an expired pair turns each
    /// expired request `Expired` and returns its escrow to its owner, once.
    /// Every symbol's total is conserved on every path.
    pub fn execute_swap(&mut self, swap_id1: u64, swap_id2: u64, now: u64) -> (r: Result<
        (),
        SwapError,
    >)
        requires
            old(self).wf(),
        ensures
            final(self).wf(),
            r == Err::<(), SwapError>(SwapError::InvalidInput) <==> swap_id1 == swap_id2,
            swap_id1 != swap_id2 ==> (r == Err::<(), SwapError>(SwapError::NotFound) <==> (old(
                self,
            ).lookup(swap_id1) is None || old(self).lookup(swap_id2) is None)),
            swap_id1 != swap_id2 && old(self).lookup(swap_id1) is Some && old(self).lookup(
                swap_id2,
            ) is Some ==> (r == Err::<(), SwapError>(SwapError::AlreadyProcessed) <==> !(old(
                self,
            ).req_view(swap_id1).status is Pending && old(self).req_view(
                swap_id2,
            ).status is Pending)),
            swap_id1 != swap_id2 && old(self).lookup(swap_id1) is Some && old(self).lookup(
                swap_id2,
            ) is Some && old(self).req_view(swap_id1).status is Pending && old(self).req_view(
                swap_id2,
            ).status is Pending ==> (r == Err::<(), SwapError>(SwapError::Incompatible) <==> !compatible(
                old(self).req_view(swap_id1),
                old(self).req_view(swap_id2),
            )),
            swap_id1 != swap_id2 && old(self).lookup(swap_id1) is Some && old(self).lookup(
                swap_id2,
            ) is Some && old(self).req_view(swap_id1).status is Pending && old(self).req_view(
                swap_id2,
            ).status is Pending && compatible(
                old(self).req_view(swap_id1),
                old(self).req_view(swap_id2),
            ) && (is_expired(old(self).req_view(swap_id1), now) || is_expired(
                old(self).req_view(swap_id2),
                now,
            )) ==> {
                &&& (r == Err::<(), SwapError>(SwapError::Expired) <==> old(self).two_credits_fit(
                    old(self).req_view(swap_id1).user,
                    old(self).req_view(swap_id1).from_asset.symbol,
                    old(self).req_view(swap_id1).from_asset.amount,
                    is_expired(old(self).req_view(swap_id1), now),
                    old(self).req_view(swap_id2).user,
                    old(self).req_view(swap_id2).from_asset.symbol,
                    old(self).req_view(swap_id2).from_asset.amount,
                    is_expired(old(self).req_view(swap_id2), now),
                ))
                &&& (r == Err::<(), SwapError>(SwapError::Overflow) <==> !old(
                    self,
                ).two_credits_fit(
                    old(self).req_view(swap_id1).user,
                    old(self).req_view(swap_id1).from_asset.symbol,
                    old(self).req_view(swap_id1).from_asset.amount,
                    is_expired(old(self).req_view(swap_id1), now),
                    old(self).req_view(swap_id2).user,
                    old(self).req_view(swap_id2).from_asset.symbol,
                    old(self).req_view(swap_id2).from_asset.amount,
                    is_expired(old(self).req_view(swap_id2), now),
                ))
            },
            r is Ok <==> (swap_id1 != swap_id2 && old(self).lookup(swap_id1) is Some && old(
                self,
            ).lookup(swap_id2) is Some && old(self).req_view(swap_id1).status is Pending && old(
                self,
            ).req_view(swap_id2).status is Pending && compatible(
                old(self).req_view(swap_id1),
                old(self).req_view(swap_id2),
            ) && !is_expired(old(self).req_view(swap_id1), now) && !is_expired(
                old(self).req_view(swap_id2),
                now,
            ) && old(self).two_credits_fit(
                old(self).req_view(swap_id1).user,
                old(self).req_view(swap_id2).from_asset.symbol,
                old(self).req_view(swap_id2).from_asset.amount,
                true,
                old(self).req_view(swap_id2).user,
                old(self).req_view(swap_id1).from_asset.symbol,
                old(self).req_view(swap_id1).from_asset.amount,
                true,
            )),
            r is Err && r != Err::<(), SwapError>(SwapError::Expired) ==> *final(self) == *old(
                self,
            ),
            r == Err::<(), SwapError>(SwapError::Expired) ==> {
                &&& forall|o: Seq<u8>, s: Seq<char>|
                    #[trigger] final(self).balance(o, s) as int == old(self).balance(o, s)
                        + two_credits_delta(
                        old(self).req_view(swap_id1).user,
                        old(self).req_view(swap_id1).from_asset.symbol,
                        old(self).req_view(swap_id1).from_asset.amount,
                        is_expired(old(self).req_view(swap_id1), now),
                        old(self).req_view(swap_id2).user,
                        old(self).req_view(swap_id2).from_asset.symbol,
                        old(self).req_view(swap_id2).from_asset.amount,
                        is_expired(old(self).req_view(swap_id2), now),
                        o,
                        s,
                    )
                &&& (is_expired(old(self).req_view(swap_id1), now) ==> opt_view(
                    final(self).lookup(swap_id1),
                ) == Some(view_with_status(old(self).req_view(swap_id1), SwapStatus::Expired)))
                &&& (!is_expired(old(self).req_view(swap_id1), now) ==> final(self).lookup(
                    swap_id1,
                ) == old(self).lookup(swap_id1))
                &&& (is_expired(old(self).req_view(swap_id2), now) ==> opt_view(
                    final(self).lookup(swap_id2),
                ) == Some(view_with_status(old(self).req_view(swap_id2), SwapStatus::Expired)))
                &&& (!is_expired(old(self).req_view(swap_id2), now) ==> final(self).lookup(
                    swap_id2,
                ) == old(self).lookup(swap_id2))
                &&& forall|other: u64|
                    other != swap_id1 && other != swap_id2 ==> #[trigger] final(self).lookup(other)
                        == old(self).lookup(other)
                &&& forall|s: Seq<char>| #[trigger] final(self).total(s) == old(self).total(s)
                &&& final(self).next_swap_id == old(self).next_swap_id
            },
            r is Ok ==> {
                &&& forall|o: Seq<u8>, s: Seq<char>|
                    #[trigger] final(self).balance(o, s) as int == old(self).balance(o, s)
                        + two_credits_delta(
                        old(self).req_view(swap_id1).user,
                        old(self).req_view(swap_id2).from_asset.symbol,
                        old(self).req_view(swap_id2).from_asset.amount,
                        true,
                        old(self).req_view(swap_id2).user,
                        old(self).req_view(swap_id1).from_asset.symbol,
                        old(self).req_view(swap_id1).from_asset.amount,
                        true,
                        o,
                        s,
                    )
                &&& final(self).lookup(swap_id1) is None
                &&& final(self).lookup(swap_id2) is None
                &&& forall|other: u64|
                    other != swap_id1 && other != swap_id2 ==> #[trigger] final(self).lookup(other)
                        == old(self).lookup(other)
                &&& forall|s: Seq<char>| #[trigger] final(self).total(s) == old(self).total(s)
                &&& final(self).next_swap_id == old(self).next_swap_id
            },
    {
        if swap_id1 == swap_id2 {
            return Err(SwapError::InvalidInput);
        }
        let q1 = match self.registry.get_pending_swap(swap_id1) {
            Some(q) => q,
            None => {
                return Err(SwapError::NotFound);
            },
        };
        let q2 = match self.registry.get_pending_swap(swap_id2) {
            Some(q) => q,
            None => {
                return Err(SwapError::NotFound);
            },
        };
        if !(matches!(q1.status, SwapStatus::Pending)) || !(matches!(
            q2.status,
            SwapStatus::Pending,
        )) {
            return Err(SwapError::AlreadyProcessed);
        }
        let compat = q1.from_asset.symbol == q2.to_asset_symbol && q1.from_asset.chain
            == q2.to_chain && q2.from_asset.symbol == q1.to_asset_symbol && q2.from_asset.chain
            == q1.to_chain;
        if !compat {
            return Err(SwapError::Incompatible);
        }
        let e1 = now > q1.deadline;
        let e2 = now > q2.deadline;
        if e1 || e2 {
            // Verify both refunds fit before either is applied.
            let refund_alias = e1 && e2 && q1.user.same_as(&q2.user) && q1.from_asset.symbol
                == q2.from_asset.symbol;
            if refund_alias {
                let b = self.ledger.get_user_balance(&q1.user, &q1.from_asset.symbol);
                let fits = match b.checked_add(q1.from_asset.amount) {
                    Some(t) => t.checked_add(q2.from_asset.amount).is_some(),
                    None => false,
                };
                if !fits {
                    return Err(SwapError::Overflow);
                }
            } else {
                if e1 {
                    let b1 = self.ledger.get_user_balance(&q1.user, &q1.from_asset.symbol);
                    if b1.checked_add(q1.from_asset.amount).is_none() {
                        return Err(SwapError::Overflow);
                    }
                }
                if e2 {
                    let b2 = self.ledger.get_user_balance(&q2.user, &q2.from_asset.symbol);
                    if b2.checked_add(q2.from_asset.amount).is_none() {
                        return Err(SwapError::Overflow);
                    }
                }
            }
            let ghost m0 = *self;
            if e1 {
                let c = self.ledger.credit(&q1.user, &q1.from_asset.symbol, q1.from_asset.amount);
                proof {
                    assert(c is Ok);
                }
                let marked = self.registry.set_status(swap_id1, SwapStatus::Expired);
                proof {
                    assert(marked);
                }
            }
            let ghost ma = *self;
            if e2 {
                let c = self.ledger.credit(&q2.user, &q2.from_asset.symbol, q2.from_asset.amount);
                proof {
                    assert(c is Ok);
                }
                let marked = self.registry.set_status(swap_id2, SwapStatus::Expired);
                proof {
                    assert(marked);
                }
            }
            proof {
                let q1v = m0.req_view(swap_id1);
                let q2v = m0.req_view(swap_id2);
                assert forall|j: int| 0 <= j < self.registry.swaps@.len() implies #[trigger] self
                    .registry.swaps@[j].id < self.next_swap_id by {
                    assert(ma.registry.swaps@[j].id == m0.registry.swaps@[j].id);
                    assert(self.registry.swaps@[j].id == ma.registry.swaps@[j].id);
                }
                assert forall|o: Seq<u8>, s: Seq<char>| #[trigger] self.balance(o, s) as int == m0
                    .balance(o, s) + two_credits_delta(
                    q1v.user,
                    q1v.from_asset.symbol,
                    q1v.from_asset.amount,
                    e1,
                    q2v.user,
                    q2v.from_asset.symbol,
                    q2v.from_asset.amount,
                    e2,
                    o,
                    s,
                ) by {
                    if e1 {
                        if o == q1v.user && s == q1v.from_asset.symbol {
                            assert(ma.ledger.balance(o, s) == m0.ledger.balance(o, s)
                                + q1v.from_asset.amount);
                        } else {
                            assert(ma.ledger.balance(o, s) == m0.ledger.balance(o, s));
                        }
                    } else {
                        assert(ma.ledger == m0.ledger);
                    }
                    if e2 {
                        if o == q2v.user && s == q2v.from_asset.symbol {
                            assert(self.ledger.balance(o, s) == ma.ledger.balance(o, s)
                                + q2v.from_asset.amount);
                        } else {
                            assert(self.ledger.balance(o, s) == ma.ledger.balance(o, s));
                        }
                    } else {
                        assert(self.ledger == ma.ledger);
                    }
                }
                assert forall|s: Seq<char>| #[trigger] self.total(s) == m0.total(s) by {
                    if e1 {
                        assert(ma.registry.escrow(s) == m0.registry.escrow(s) + escrow_contrib(
                            view_with_status(q1v, SwapStatus::Expired),
                            s,
                        ) - escrow_contrib(q1v, s));
                        if s == q1v.from_asset.symbol {
                            assert(ma.ledger.total(s) == m0.ledger.total(s)
                                + q1v.from_asset.amount);
                        } else {
                            assert(ma.ledger.total(s) == m0.ledger.total(s));
                        }
                    }
                    if e2 {
                        assert(self.registry.escrow(s) == ma.registry.escrow(s) + escrow_contrib(
                            view_with_status(q2v, SwapStatus::Expired),
                            s,
                        ) - escrow_contrib(q2v, s));
                        if s == q2v.from_asset.symbol {
                            assert(self.ledger.total(s) == ma.ledger.total(s)
                                + q2v.from_asset.amount);
                        } else {
                            assert(self.ledger.total(s) == ma.ledger.total(s));
                        }
                    }
                }
            }
            return Err(SwapError::Expired);
        }
        // Verify both credits fit before either is applied.
        let credit_alias = q1.user.same_as(&q2.user) && q2.from_asset.symbol
            == q1.from_asset.symbol;
        if credit_alias {
            let b = self.ledger.get_user_balance(&q1.user, &q2.from_asset.symbol);
            let fits = match b.checked_add(q2.from_asset.amount) {
                Some(t) => t.checked_add(q1.from_asset.amount).is_some(),
                None => false,
            };
            if !fits {
                return Err(SwapError::Overflow);
            }
        } else {
            let b1 = self.ledger.get_user_balance(&q1.user, &q2.from_asset.symbol);
            if b1.checked_add(q2.from_asset.amount).is_none() {
                return Err(SwapError::Overflow);
            }
            let b2 = self.ledger.get_user_balance(&q2.user, &q1.from_asset.symbol);
            if b2.checked_add(q1.from_asset.amount).is_none() {
                return Err(SwapError::Overflow);
            }
        }
        let ghost m0 = *self;
        let c1 = self.ledger.credit(&q1.user, &q2.from_asset.symbol, q2.from_asset.amount);
        proof {
            assert(c1 is Ok);
        }
        let ghost ma = *self;
        let c2 = self.ledger.credit(&q2.user, &q1.from_asset.symbol, q1.from_asset.amount);
        proof {
            assert(c2 is Ok);
        }
        let ghost mb = *self;
        let r1 = self.registry.remove_pending_swap(swap_id1);
        proof {
            assert(r1 is Some);
        }
        let ghost mc = *self;
        let r2 = self.registry.remove_pending_swap(swap_id2);
        proof {
            assert(r2 is Some);
            let q1v = m0.req_view(swap_id1);
            let q2v = m0.req_view(swap_id2);
            lemma_ids_bound_after_remove(
                mb.registry.swaps@,
                mc.registry.swaps@,
                mb.next_swap_id,
            );
            lemma_ids_bound_after_remove(
                mc.registry.swaps@,
                self.registry.swaps@,
                mc.next_swap_id,
            );
            assert forall|o: Seq<u8>, s: Seq<char>| #[trigger] self.balance(o, s) as int == m0
                .balance(o, s) + two_credits_delta(
                q1v.user,
                q2v.from_asset.symbol,
                q2v.from_asset.amount,
                true,
                q2v.user,
                q1v.from_asset.symbol,
                q1v.from_asset.amount,
                true,
                o,
                s,
            ) by {
                if o == q1v.user && s == q2v.from_asset.symbol {
                    assert(ma.ledger.balance(o, s) == m0.ledger.balance(o, s)
                        + q2v.from_asset.amount);
                } else {
                    assert(ma.ledger.balance(o, s) == m0.ledger.balance(o, s));
                }
                if o == q2v.user && s == q1v.from_asset.symbol {
                    assert(mb.ledger.balance(o, s) == ma.ledger.balance(o, s)
                        + q1v.from_asset.amount);
                } else {
                    assert(mb.ledger.balance(o, s) == ma.ledger.balance(o, s));
                }
                assert(self.ledger == mb.ledger);
            }
            assert forall|s: Seq<char>| #[trigger] self.total(s) == m0.total(s) by {
                assert(mc.registry.escrow(s) == mb.registry.escrow(s) - escrow_contrib(q1v, s));
                assert(self.registry.escrow(s) == mc.registry.escrow(s) - escrow_contrib(q2v, s));
                if s == q2v.from_asset.symbol {
                    assert(ma.ledger.total(s) == m0.ledger.total(s) + q2v.from_asset.amount);
                } else {
                    assert(ma.ledger.total(s) == m0.ledger.total(s));
                }
                if s == q1v.from_asset.symbol {
                    assert(mb.ledger.total(s) == ma.ledger.total(s) + q1v.from_asset.amount);
                } else {
                    assert(mb.ledger.total(s) == ma.ledger.total(s));
                }
            }
        }
        Ok(())
    }

    /// The spendable balance of `(user, asset_symbol)`; 0 for unknown pairs.
    pub fn get_balance(&self, user: &Identity, asset_symbol: &String) -> (r: u64)
        requires
            self.wf(),
        ensures
            r == self.balance(user@, asset_symbol@),
    {
        self.ledger.get_user_balance(user, asset_symbol)
    }

    /// A copy of the record stored under `swap_id`, or `NotFound`.
    pub fn get_swap_request(&self, swap_id: u64) -> (r: Result<SwapRequest, SwapError>)
        requires
            self.wf(),
        ensures
            r is Ok <==> self.lookup(swap_id) is Some,
            r is Ok ==> r->Ok_0@ == self.req_view(swap_id),
            r is Err ==> r == Err::<SwapRequest, SwapError>(SwapError::NotFound),
    {
        match self.registry.get_pending_swap(swap_id) {
            Some(q) => Ok(q),
            None => Err(SwapError::NotFound),
        }
    }

    /// Every `(symbol, amount)` pair held for `user`, in entry order.
    pub fn get_all_balances(&self, user: &Identity) -> (r: BalanceResponse)
        ensures
            r.balances@.map_values(|p: (String, u64)| (p.0@, p.1)) == user_pairs(
                self.ledger.entries@,
                user@,
            ),
    {
        BalanceResponse { balances: self.ledger.get_all_user_balances(user) }
    }

    /// Copies of the pending requests, in insertion order.
    pub fn get_pending_swaps(&self) -> (r: Vec<SwapRequest>)
        ensures
            r@.map_values(|q: SwapRequest| q@) == pending_views(self.registry.swaps@),
    {
        self.registry.get_all_pending_swaps()
    }
}

} // verus!
