//! Spec-level views of the event log.
//!
//! The transfer announcements for one destination chain carry the nonces
//! stamped on outbound transfers; the bridge keeps them strictly increasing.

use vstd::prelude::*;

use crate::types::ChainId;
use crate::types::DepositNonce;
use crate::types::Event;

verus! {

/// Whether an event announces an outbound transfer to chain `c`.
pub open spec fn is_transfer_to(e: Event, c: ChainId) -> bool {
    match e {
        Event::FungibleTransfer(d, _, _, _, _) => d == c,
        Event::NonFungibleTransfer(d, _, _, _, _, _) => d == c,
        Event::GenericTransfer(d, _, _, _) => d == c,
        _ => false,
    }
}

/// The nonce a transfer announcement carries (zero for other events; only
/// read under `is_transfer_to`).
pub open spec fn event_nonce(e: Event) -> DepositNonce {
    match e {
        Event::FungibleTransfer(_, n, _, _, _) => n,
        Event::NonFungibleTransfer(_, n, _, _, _, _) => n,
        Event::GenericTransfer(_, n, _, _) => n,
        _ => 0,
    }
}

/// The nonces announced for chain `c`, in order of announcement.
pub open spec fn transfer_nonces(events: Seq<Event>, c: ChainId) -> Seq<DepositNonce> {
    events.filter(|e: Event| is_transfer_to(e, c)).map_values(|e: Event| event_nonce(e))
}

/// How often the approval of the proposal (`c`, `n`) has been announced.
pub open spec fn approval_count(events: Seq<Event>, c: ChainId, n: DepositNonce) -> nat {
    events.filter(|e: Event| e == Event::ProposalApproved(c, n)).len()
}

/// An empty log has announced no approval.
pub proof fn lemma_approval_count_empty(c: ChainId, n: DepositNonce)
    ensures
        approval_count(Seq::<Event>::empty(), c, n) == 0,
{
    reveal(Seq::filter);
    assert(Seq::<Event>::empty().filter(|e: Event| e == Event::ProposalApproved(c, n)) =~= Seq::<
        Event,
    >::empty());
}

/// How one appended event changes an approval count.
pub proof fn lemma_approval_count_push(events: Seq<Event>, e: Event, c: ChainId, n: DepositNonce)
    ensures
        approval_count(events.push(e), c, n) == approval_count(events, c, n) + (
        if e == Event::ProposalApproved(c, n) {
            1int
        } else {
            0int
        }),
{
    let pred = |x: Event| x == Event::ProposalApproved(c, n);
    assert(events.push(e) =~= events + seq![e]);
    Seq::filter_distributes_over_add(events, seq![e], pred);
    reveal(Seq::filter);
    assert(seq![e].drop_last() =~= Seq::<Event>::empty());
    assert(Seq::<Event>::empty().filter(pred) =~= Seq::<Event>::empty());
    if pred(e) {
        assert(seq![e].filter(pred) =~= seq![e]);
    } else {
        assert(seq![e].filter(pred) =~= Seq::<Event>::empty());
    }
}

/// Every later element is larger: no repeats, no decreases.
pub open spec fn strictly_increasing(ns: Seq<DepositNonce>) -> bool {
    forall|i: int, j: int| 0 <= i < j < ns.len() ==> ns[i] < ns[j]
}

/// An empty log announces nothing.
pub proof fn lemma_transfer_nonces_empty(c: ChainId)
    ensures
        transfer_nonces(Seq::<Event>::empty(), c) == Seq::<DepositNonce>::empty(),
{
    reveal(Seq::filter);
    assert(Seq::<Event>::empty().filter(|e: Event| is_transfer_to(e, c)) =~= Seq::<
        Event,
    >::empty());
    assert(Seq::<Event>::empty().map_values(|e: Event| event_nonce(e)) =~= Seq::<
        DepositNonce,
    >::empty());
}

/// How one appended event changes the announced-nonce view of chain `c`.
pub proof fn lemma_transfer_nonces_push(events: Seq<Event>, e: Event, c: ChainId)
    ensures
        is_transfer_to(e, c) ==> transfer_nonces(events.push(e), c) == transfer_nonces(
            events,
            c,
        ).push(event_nonce(e)),
        !is_transfer_to(e, c) ==> transfer_nonces(events.push(e), c) == transfer_nonces(events, c),
{
    let pred = |x: Event| is_transfer_to(x, c);
    let f = |x: Event| event_nonce(x);
    assert(events.push(e) =~= events + seq![e]);
    Seq::filter_distributes_over_add(events, seq![e], pred);
    reveal(Seq::filter);
    assert(seq![e].drop_last() =~= Seq::<Event>::empty());
    assert(Seq::<Event>::empty().filter(pred) =~= Seq::<Event>::empty());
    if pred(e) {
        assert(seq![e].filter(pred) =~= seq![e]);
        assert(events.filter(pred) + seq![e] =~= events.filter(pred).push(e));
        assert(events.filter(pred).push(e).map_values(f) =~= events.filter(pred).map_values(
            f,
        ).push(f(e)));
    } else {
        assert(seq![e].filter(pred) =~= Seq::<Event>::empty());
        assert(events.filter(pred) + Seq::<Event>::empty() =~= events.filter(pred));
    }
}

} // verus!
