//! The swap registry: a keyed table `id -> SwapRequest`.
//!
//! The registry owns the swap records. Ids are pairwise distinct; removal is
//! idempotent (removing a missing id yields nothing and changes nothing).
//! Besides the per-id contracts, every mutation states what it does to the
//! escrow held by pending requests of each symbol, which is the other half
//! of the matching engine's conservation law.

use vstd::prelude::*;
use crate::types::{SwapRequest, SwapRequestView, SwapStatus};

verus! {

/// The mathematical value of an optional swap record.
pub open spec fn opt_view(o: Option<SwapRequest>) -> Option<SwapRequestView> {
    match o {
        Some(q) => Some(q@),
        None => None,
    }
}

/// `v` with its status replaced.
pub open spec fn view_with_status(v: SwapRequestView, status: SwapStatus) -> SwapRequestView {
    SwapRequestView {
        id: v.id,
        user: v.user,
        from_asset: v.from_asset,
        to_asset_symbol: v.to_asset_symbol,
        to_chain: v.to_chain,
        deadline: v.deadline,
        status,
    }
}

/// What `v` holds in escrow against `symbol`: its offered amount while the
/// request is pending, nothing once it is terminal.
pub open spec fn escrow_contrib(v: SwapRequestView, symbol: Seq<char>) -> int {
    if v.status is Pending && v.from_asset.symbol == symbol {
        v.from_asset.amount as int
    } else {
        0
    }
}

/// The record stored under `id`, if any.
pub open spec fn lookup_in(swaps: Seq<SwapRequest>, id: u64) -> Option<SwapRequest>
    decreases swaps.len(),
{
    if swaps.len() == 0 {
        None
    } else if swaps.last().id == id {
        Some(swaps.last())
    } else {
        lookup_in(swaps.drop_last(), id)
    }
}

/// The total amount of `symbol` held in escrow by pending requests.
pub open spec fn escrow_in(swaps: Seq<SwapRequest>, symbol: Seq<char>) -> int
    decreases swaps.len(),
{
    if swaps.len() == 0 {
        0
    } else {
        escrow_in(swaps.drop_last(), symbol) + escrow_contrib(swaps.last()@, symbol)
    }
}

/// The views of the pending records, in insertion order.
pub open spec fn pending_views(swaps: Seq<SwapRequest>) -> Seq<SwapRequestView>
    decreases swaps.len(),
{
    if swaps.len() == 0 {
        Seq::empty()
    } else if swaps.last().status is Pending {
        pending_views(swaps.drop_last()).push(swaps.last()@)
    } else {
        pending_views(swaps.drop_last())
    }
}

/// Pairwise distinct ids.
pub open spec fn unique_ids(swaps: Seq<SwapRequest>) -> bool {
    forall|i: int, j: int|
        0 <= i < j < swaps.len() ==> #[trigger] swaps[i].id != #[trigger] swaps[j].id
}

proof fn lemma_lookup_found(swaps: Seq<SwapRequest>, i: int)
    requires
        unique_ids(swaps),
        0 <= i < swaps.len(),
    ensures
        lookup_in(swaps, swaps[i].id) == Some(swaps[i]),
    decreases swaps.len(),
{
    if i < swaps.len() - 1 {
        assert(swaps.last().id != swaps[i].id);
        assert(swaps.drop_last()[i] == swaps[i]);
        lemma_lookup_found(swaps.drop_last(), i);
    }
}

/// An id occurs in no record exactly when looking it up yields nothing.
pub proof fn lemma_lookup_absent(swaps: Seq<SwapRequest>, id: u64)
    ensures
        (lookup_in(swaps, id) is None) <==> (forall|j: int|
            0 <= j < swaps.len() ==> #[trigger] swaps[j].id != id),
    decreases swaps.len(),
{
    if swaps.len() > 0 {
        lemma_lookup_absent(swaps.drop_last(), id);
        if swaps.last().id != id && lookup_in(swaps.drop_last(), id) is None {
            assert forall|j: int| 0 <= j < swaps.len() implies #[trigger] swaps[j].id != id by {
                if j < swaps.len() - 1 {
                    assert(swaps.drop_last()[j] == swaps[j]);
                }
            }
        }
    }
}

proof fn lemma_lookup_push(swaps: Seq<SwapRequest>, q: SwapRequest, id: u64)
    ensures
        lookup_in(swaps.push(q), id) == if id == q.id {
            Some(q)
        } else {
            lookup_in(swaps, id)
        },
{
    assert(swaps.push(q).last() == q);
    assert(swaps.push(q).drop_last() =~= swaps);
}

proof fn lemma_lookup_update_other(swaps: Seq<SwapRequest>, i: int, q: SwapRequest, id: u64)
    requires
        0 <= i < swaps.len(),
        q.id == swaps[i].id,
        id != q.id,
    ensures
        lookup_in(swaps.update(i, q), id) == lookup_in(swaps, id),
    decreases swaps.len(),
{
    let u = swaps.update(i, q);
    if i == swaps.len() - 1 {
        assert(u.last() == q);
        assert(u.drop_last() =~= swaps.drop_last());
    } else {
        assert(u.last() == swaps.last());
        if swaps.last().id != id {
            assert(u.drop_last() =~= swaps.drop_last().update(i, q));
            lemma_lookup_update_other(swaps.drop_last(), i, q, id);
        }
    }
}

proof fn lemma_lookup_remove(swaps: Seq<SwapRequest>, i: int, id: u64)
    requires
        unique_ids(swaps),
        0 <= i < swaps.len(),
    ensures
        lookup_in(swaps.remove(i), id) == if id == swaps[i].id {
            None::<SwapRequest>
        } else {
            lookup_in(swaps, id)
        },
    decreases swaps.len(),
{
    let u = swaps.remove(i);
    if i == swaps.len() - 1 {
        assert(u =~= swaps.drop_last());
        if id == swaps[i].id {
            assert forall|j: int| 0 <= j < u.len() implies #[trigger] u[j].id != id by {
                assert(u[j] == swaps[j]);
            }
            lemma_lookup_absent(u, id);
        }
    } else {
        assert(u.last() == swaps.last());
        assert(u.drop_last() =~= swaps.drop_last().remove(i));
        if swaps.last().id == id {
            assert(lookup_in(u, id) == Some(swaps.last()));
        } else {
            assert(swaps.drop_last()[i] == swaps[i]);
            lemma_lookup_remove(swaps.drop_last(), i, id);
        }
    }
}

proof fn lemma_escrow_update(swaps: Seq<SwapRequest>, i: int, q: SwapRequest, symbol: Seq<char>)
    requires
        0 <= i < swaps.len(),
    ensures
        escrow_in(swaps.update(i, q), symbol) == escrow_in(swaps, symbol) + escrow_contrib(
            q@,
            symbol,
        ) - escrow_contrib(swaps[i]@, symbol),
    decreases swaps.len(),
{
    let u = swaps.update(i, q);
    if i == swaps.len() - 1 {
        assert(u.drop_last() =~= swaps.drop_last());
    } else {
        assert(u.last() == swaps.last());
        assert(u.drop_last() =~= swaps.drop_last().update(i, q));
        lemma_escrow_update(swaps.drop_last(), i, q, symbol);
    }
}

proof fn lemma_escrow_push(swaps: Seq<SwapRequest>, q: SwapRequest, symbol: Seq<char>)
    ensures
        escrow_in(swaps.push(q), symbol) == escrow_in(swaps, symbol) + escrow_contrib(q@, symbol),
{
    assert(swaps.push(q).last() == q);
    assert(swaps.push(q).drop_last() =~= swaps);
}

proof fn lemma_escrow_remove(swaps: Seq<SwapRequest>, i: int, symbol: Seq<char>)
    requires
        0 <= i < swaps.len(),
    ensures
        escrow_in(swaps.remove(i), symbol) == escrow_in(swaps, symbol) - escrow_contrib(
            swaps[i]@,
            symbol,
        ),
    decreases swaps.len(),
{
    let u = swaps.remove(i);
    if i == swaps.len() - 1 {
        assert(u =~= swaps.drop_last());
    } else {
        assert(u.last() == swaps.last());
        assert(u.drop_last() =~= swaps.drop_last().remove(i));
        lemma_escrow_remove(swaps.drop_last(), i, symbol);
    }
}

/// The registry itself: a list of swap records with pairwise distinct ids.
#[derive(Debug)]
pub struct SwapRegistry {
    pub swaps: Vec<SwapRequest>,
}

impl SwapRegistry {
    /// Internal invariant: one record per id.
    pub open spec fn wf(self) -> bool {
        unique_ids(self.swaps@)
    }

    /// The record stored under `id`, if any.
    pub open spec fn lookup(self, id: u64) -> Option<SwapRequest> {
        lookup_in(self.swaps@, id)
    }

    /// The total amount of `symbol` held in escrow by pending requests.
    pub open spec fn escrow(self, symbol: Seq<char>) -> int {
        escrow_in(self.swaps@, symbol)
    }

    /// An empty registry.
    pub fn new() -> (r: SwapRegistry)
        ensures
            r.wf(),
            r.swaps@.len() == 0,
            forall|id: u64| #[trigger] r.lookup(id) is None,
            forall|s: Seq<char>| #[trigger] r.escrow(s) == 0,
    {
        SwapRegistry { swaps: Vec::new() }
    }

    /// The position of the record stored under `id`, if any.
    fn find_index(&self, id: u64) -> (r: Option<usize>)
        ensures
            match r {
                Some(i) => i < self.swaps@.len() && self.swaps@[i as int].id == id,
                None => forall|j: int|
                    0 <= j < self.swaps@.len() ==> #[trigger] self.swaps@[j].id != id,
            },
    {
        let n = self.swaps.len();
        let mut i: usize = 0;
        while i < n
            invariant
                i <= n,
                n == self.swaps@.len(),
                forall|j: int| 0 <= j < i ==> #[trigger] self.swaps@[j].id != id,
            decreases n - i,
        {
            if self.swaps[i].id == id {
                return Some(i);
            }
            i += 1;
        }
        None
    }

    /// Store a record under its (fresh) id. The record and nothing else is
    /// added; its offered amount joins the escrow of its symbol while it is
    /// pending.
    pub fn add_pending_swap(&mut self, swap: SwapRequest) -> (id: u64)
        requires
            old(self).wf(),
            old(self).lookup(swap.id) is None,
        ensures
            final(self).wf(),
            id == swap.id,
            final(self).swaps@ == old(self).swaps@.push(swap),
            final(self).lookup(id) == Some(swap),
            forall|other: u64|
                other != id ==> #[trigger] final(self).lookup(other) == old(self).lookup(other),
            forall|s: Seq<char>|
                #[trigger] final(self).escrow(s) == old(self).escrow(s) + escrow_contrib(swap@, s),
    {
        let ghost swaps0 = self.swaps@;
        let id = swap.id;
        proof {
            lemma_lookup_absent(swaps0, id);
        }
        self.swaps.push(swap);
        proof {
            let swaps1 = self.swaps@;
            assert(swaps1 == swaps0.push(swap));
            assert forall|k: int, l: int| 0 <= k < l < swaps1.len() implies #[trigger] swaps1[k].id
                != #[trigger] swaps1[l].id by {
                if l == swaps1.len() - 1 {
                    assert(swaps1[k] == swaps0[k]);
                } else {
                    assert(swaps1[k] == swaps0[k]);
                    assert(swaps1[l] == swaps0[l]);
                }
            }
            lemma_lookup_push(swaps0, swap, id);
            assert forall|other: u64| other != id implies #[trigger] lookup_in(swaps1, other)
                == lookup_in(swaps0, other) by {
                lemma_lookup_push(swaps0, swap, other);
            }
            assert forall|s: Seq<char>| #[trigger] escrow_in(swaps1, s) == escrow_in(swaps0, s)
                + escrow_contrib(swap@, s) by {
                lemma_escrow_push(swaps0, swap, s);
            }
        }
        id
    }

    /// A copy of the record stored under `id`, if any.
    pub fn get_pending_swap(&self, swap_id: u64) -> (r: Option<SwapRequest>)
        requires
            self.wf(),
        ensures
            opt_view(r) == opt_view(self.lookup(swap_id)),
    {
        match self.find_index(swap_id) {
            Some(i) => {
                proof {
                    lemma_lookup_found(self.swaps@, i as int);
                }
                Some(self.swaps[i].clone())
            },
            None => {
                proof {
                    lemma_lookup_absent(self.swaps@, swap_id);
                }
                None
            },
        }
    }

    /// Remove and return the record stored under `id`. Removing a missing id
    /// yields nothing and changes nothing; its escrow contribution (if the
    /// record was pending) leaves with it.
    pub fn remove_pending_swap(&mut self, swap_id: u64) -> (r: Option<SwapRequest>)
        requires
            old(self).wf(),
        ensures
            final(self).wf(),
            r == old(self).lookup(swap_id),
            final(self).lookup(swap_id) is None,
            r is None ==> *final(self) == *old(self),
            r is Some ==> exists|i: int|
                0 <= i < old(self).swaps@.len() && final(self).swaps@ == old(self).swaps@.remove(i)
                    && old(self).swaps@[i] == r->Some_0,
            forall|other: u64|
                other != swap_id ==> #[trigger] final(self).lookup(other) == old(self).lookup(
                    other,
                ),
            forall|s: Seq<char>|
                #[trigger] final(self).escrow(s) == old(self).escrow(s) - (match old(self).lookup(
                    swap_id,
                ) {
                    Some(q) => escrow_contrib(q@, s),
                    None => 0,
                }),
    {
        let ghost swaps0 = self.swaps@;
        match self.find_index(swap_id) {
            Some(i) => {
                proof {
                    lemma_lookup_found(swaps0, i as int);
                }
                let q = self.swaps.remove(i);
                proof {
                    let swaps1 = self.swaps@;
                    assert(swaps1 == swaps0.remove(i as int));
                    assert forall|k: int, l: int|
                        0 <= k < l < swaps1.len() implies #[trigger] swaps1[k].id
                        != #[trigger] swaps1[l].id by {
                        let k0 = if k < i as int {
                            k
                        } else {
                            k + 1
                        };
                        let l0 = if l < i as int {
                            l
                        } else {
                            l + 1
                        };
                        assert(swaps1[k] == swaps0[k0]);
                        assert(swaps1[l] == swaps0[l0]);
                    }
                    lemma_lookup_remove(swaps0, i as int, swap_id);
                    assert forall|other: u64| other != swap_id implies #[trigger] lookup_in(
                        swaps1,
                        other,
                    ) == lookup_in(swaps0, other) by {
                        lemma_lookup_remove(swaps0, i as int, other);
                    }
                    assert forall|s: Seq<char>| #[trigger] escrow_in(swaps1, s) == escrow_in(
                        swaps0,
                        s,
                    ) - escrow_contrib(swaps0[i as int]@, s) by {
                        lemma_escrow_remove(swaps0, i as int, s);
                    }
                }
                Some(q)
            },
            None => {
                proof {
                    lemma_lookup_absent(swaps0, swap_id);
                }
                None
            },
        }
    }

    /// Move the record stored under `id` to `status`. Nothing else changes;
    /// when a pending record turns terminal, its offered amount leaves the
    /// escrow of its symbol.
    pub fn set_status(&mut self, swap_id: u64, status: SwapStatus) -> (r: bool)
        requires
            old(self).wf(),
        ensures
            final(self).wf(),
            r == (old(self).lookup(swap_id) is Some),
            !r ==> *final(self) == *old(self),
            final(self).swaps@.len() == old(self).swaps@.len(),
            forall|j: int|
                0 <= j < old(self).swaps@.len() ==> #[trigger] final(self).swaps@[j].id == old(
                    self,
                ).swaps@[j].id,
            r ==> opt_view(final(self).lookup(swap_id)) == Some(
                view_with_status(old(self).lookup(swap_id)->Some_0@, status),
            ),
            forall|other: u64|
                other != swap_id ==> #[trigger] final(self).lookup(other) == old(self).lookup(
                    other,
                ),
            r ==> forall|s: Seq<char>|
                #[trigger] final(self).escrow(s) == old(self).escrow(s) + escrow_contrib(
                    view_with_status(old(self).lookup(swap_id)->Some_0@, status),
                    s,
                ) - escrow_contrib(old(self).lookup(swap_id)->Some_0@, s),
    {
        let ghost swaps0 = self.swaps@;
        match self.find_index(swap_id) {
            Some(i) => {
                proof {
                    lemma_lookup_found(swaps0, i as int);
                }
                let e = &self.swaps[i];
                let q = SwapRequest {
                    id: e.id,
                    user: e.user.clone(),
                    from_asset: e.from_asset.clone(),
                    to_asset_symbol: e.to_asset_symbol.clone(),
                    to_chain: e.to_chain,
                    deadline: e.deadline,
                    status,
                };
                proof {
                    assert(q@ == view_with_status(swaps0[i as int]@, status));
                }
                self.swaps[i] = q;
                proof {
                    let swaps1 = self.swaps@;
                    assert(swaps1 == swaps0.update(i as int, q));
                    assert forall|j: int| 0 <= j < swaps0.len() implies #[trigger] swaps1[j].id
                        == swaps0[j].id by {}
                    assert forall|k: int, l: int|
                        0 <= k < l < swaps1.len() implies #[trigger] swaps1[k].id
                        != #[trigger] swaps1[l].id by {
                        assert(swaps0[k].id != swaps0[l].id);
                    }
                    lemma_lookup_found(swaps1, i as int);
                    assert forall|other: u64| other != swap_id implies #[trigger] lookup_in(
                        swaps1,
                        other,
                    ) == lookup_in(swaps0, other) by {
                        lemma_lookup_update_other(swaps0, i as int, q, other);
                    }
                    assert forall|s: Seq<char>| #[trigger] escrow_in(swaps1, s) == escrow_in(
                        swaps0,
                        s,
                    ) + escrow_contrib(q@, s) - escrow_contrib(swaps0[i as int]@, s) by {
                        lemma_escrow_update(swaps0, i as int, q, s);
                    }
                }
                true
            },
            None => {
                proof {
                    lemma_lookup_absent(swaps0, swap_id);
                }
                false
            },
        }
    }

    /// Copies of the pending records, in insertion order.
    pub fn get_all_pending_swaps(&self) -> (r: Vec<SwapRequest>)
        ensures
            r@.map_values(|q: SwapRequest| q@) == pending_views(self.swaps@),
    {
        let n = self.swaps.len();
        let mut out: Vec<SwapRequest> = Vec::new();
        let mut i: usize = 0;
        while i < n
            invariant
                i <= n,
                n == self.swaps@.len(),
                out@.map_values(|q: SwapRequest| q@) == pending_views(self.swaps@.take(i as int)),
            decreases n - i,
        {
            let ghost prefix0 = self.swaps@.take(i as int);
            let ghost prefix1 = self.swaps@.take(i as int + 1);
            proof {
                assert(prefix1.drop_last() =~= prefix0);
                assert(prefix1.last() == self.swaps@[i as int]);
            }
            let e = &self.swaps[i];
            if matches!(e.status, SwapStatus::Pending) {
                let ghost out0 = out@;
                out.push(e.clone());
                proof {
                    assert(out@.map_values(|q: SwapRequest| q@) =~= out0.map_values(
                        |q: SwapRequest| q@,
                    ).push(self.swaps@[i as int]@));
                }
            }
            i += 1;
        }
        proof {
            assert(self.swaps@.take(n as int) =~= self.swaps@);
        }
        out
    }
}

} // verus!
