use crate::model::{
    accept_assignment, assign_ntnft, burn_ntnft, cancel_assignment, create_collection,
    destroy_collection, discard_ntnft, force_collection_status, force_create, freeze_collection,
    mint_ntnft, set_frozen, thaw_collection, Outcome, State,
};
use crate::types::{AccountId, CollectionId, Error, Event, ItemId};
use vstd::prelude::*;

verus! {

/// Burning keeps a ledger well formed, and keeps every recorded amount equal
/// to the number of live items where that held before.
pub proof fn lemma_burn_keeps_invariants(s: State, caller: Option<AccountId>, c: CollectionId, i: ItemId)
    requires
        s.wf(),
    ensures
        burn_ntnft(s, caller, c, i) matches Ok((next, _)) ==> next.wf() && (s.counts_agree()
            ==> next.counts_agree()),
{
    if let Ok((next, _)) = burn_ntnft(s, caller, c, i) {
        if s.counts_agree() {
            assert forall|d: CollectionId| #[trigger] next.collections.contains_key(d) implies
                next.item_ids(d).finite() && next.collections[d].amount == next.item_ids(d).len() by {
                assert(s.collections.contains_key(d));
                if d == c {
                    assert(next.item_ids(c) =~= s.item_ids(c).remove(i));
                    assert(s.item_ids(c).contains(i));
                } else {
                    assert(next.item_ids(d) =~= s.item_ids(d));
                }
            }
        }
    }
}

/// Minting keeps a ledger well formed. Where every recorded amount was the
/// number of live items before, it is so afterwards exactly if the minted
/// item is new: minting over an item counts the item twice.
pub proof fn lemma_mint_keeps_invariants(s: State, caller: Option<AccountId>, c: CollectionId, i: ItemId)
    requires
        s.wf(),
    ensures
        mint_ntnft(s, caller, c, i) matches Ok((next, _)) ==> next.wf() && (s.counts_agree() ==> (
        next.counts_agree() <==> !s.items.contains_key((c, i)))),
{
    if let Ok((next, _)) = mint_ntnft(s, caller, c, i) {
        if s.counts_agree() {
            if s.items.contains_key((c, i)) {
                assert(next.collections.contains_key(c));
                assert(next.item_ids(c) =~= s.item_ids(c));
                assert(!next.counts_agree());
            } else {
                assert forall|d: CollectionId| #[trigger] next.collections.contains_key(d) implies
                    next.item_ids(d).finite() && next.collections[d].amount == next.item_ids(d).len() by {
                    assert(s.collections.contains_key(d));
                    if d == c {
                        assert(next.item_ids(c) =~= s.item_ids(c).insert(i));
                        assert(!s.item_ids(c).contains(i));
                    } else {
                        assert(next.item_ids(d) =~= s.item_ids(d));
                    }
                }
            }
        }
    }
}

/// A step that leaves the set of live items and every amount as they were
/// keeps the amounts equal to the numbers of live items.
proof fn lemma_same_items_same_counts(s: State, next: State)
    requires
        s.counts_agree(),
        next.items.dom() == s.items.dom(),
        next.collections.dom() == s.collections.dom(),
        forall|d: CollectionId| #[trigger]
            s.collections.contains_key(d) ==> next.collections[d].amount == s.collections[d].amount,
    ensures
        next.counts_agree(),
{
    assert forall|d: CollectionId| #[trigger] next.collections.contains_key(d) implies
        next.item_ids(d).finite() && next.collections[d].amount == next.item_ids(d).len() by {
        assert(s.collections.contains_key(d));
        assert forall|i: ItemId| next.items.contains_key((d, i)) == s.items.contains_key((d, i)) by {
            assert(next.items.dom().contains((d, i)) == s.items.dom().contains((d, i)));
        }
        assert(next.item_ids(d) =~= s.item_ids(d));
    }
}

/// Offering an item keeps a ledger well formed and its amounts equal to the
/// numbers of live items.
pub proof fn lemma_assign_keeps_invariants(
    s: State,
    caller: Option<AccountId>,
    c: CollectionId,
    i: ItemId,
    target: AccountId,
)
    requires
        s.wf(),
    ensures
        assign_ntnft(s, caller, c, i, target) matches Ok((next, _)) ==> next.wf() && (s.counts_agree()
            ==> next.counts_agree()),
{
    if let Ok((next, _)) = assign_ntnft(s, caller, c, i, target) {
        if s.counts_agree() {
            assert(next.items.dom() =~= s.items.dom());
            lemma_same_items_same_counts(s, next);
        }
    }
}

/// Accepting an item keeps a ledger well formed and its amounts equal to the
/// numbers of live items.
pub proof fn lemma_accept_keeps_invariants(s: State, caller: Option<AccountId>, c: CollectionId, i: ItemId)
    requires
        s.wf(),
    ensures
        accept_assignment(s, caller, c, i) matches Ok((next, _)) ==> next.wf() && (s.counts_agree()
            ==> next.counts_agree()),
{
    if let Ok((next, _)) = accept_assignment(s, caller, c, i) {
        if s.counts_agree() {
            assert(next.items.dom() =~= s.items.dom());
            lemma_same_items_same_counts(s, next);
        }
    }
}

/// Withdrawing an offer keeps a ledger well formed and its amounts equal to
/// the numbers of live items.
pub proof fn lemma_cancel_keeps_invariants(
    s: State,
    caller: Option<AccountId>,
    c: CollectionId,
    i: ItemId,
    target: AccountId,
)
    requires
        s.wf(),
    ensures
        cancel_assignment(s, caller, c, i, target) matches Ok((next, _)) ==> next.wf() && (s.counts_agree()
            ==> next.counts_agree()),
{
    if let Ok((next, _)) = cancel_assignment(s, caller, c, i, target) {
        if s.counts_agree() {
            assert(next.items.dom() =~= s.items.dom());
            lemma_same_items_same_counts(s, next);
        }
    }
}

/// Freezing a collection keeps a ledger well formed and its amounts equal to
/// the numbers of live items.
pub proof fn lemma_freeze_keeps_invariants(s: State, caller: Option<AccountId>, c: CollectionId)
    requires
        s.wf(),
    ensures
        freeze_collection(s, caller, c) matches Ok((next, _)) ==> next.wf() && (s.counts_agree()
            ==> next.counts_agree()),
{
    if let Ok((next, _)) = freeze_collection(s, caller, c) {
        if s.counts_agree() {
            assert(next.collections.dom() =~= s.collections.dom());
            lemma_same_items_same_counts(s, next);
        }
    }
}

/// Thawing a collection keeps a ledger well formed and its amounts equal to
/// the numbers of live items.
pub proof fn lemma_thaw_keeps_invariants(s: State, caller: Option<AccountId>, c: CollectionId)
    requires
        s.wf(),
    ensures
        thaw_collection(s, caller, c) matches Ok((next, _)) ==> next.wf() && (s.counts_agree()
            ==> next.counts_agree()),
{
    if let Ok((next, _)) = thaw_collection(s, caller, c) {
        if s.counts_agree() {
            assert(next.collections.dom() =~= s.collections.dom());
            lemma_same_items_same_counts(s, next);
        }
    }
}

/// Registering a collection keeps a ledger well formed and its amounts equal
/// to the numbers of live items: a collection that is not registered has no items.
pub proof fn lemma_create_keeps_invariants(s: State, caller: Option<AccountId>, c: CollectionId)
    requires
        s.wf(),
    ensures
        create_collection(s, caller, c) matches Ok((next, _)) ==> next.wf() && (s.counts_agree()
            ==> next.counts_agree()),
{
    if let Ok((next, _)) = create_collection(s, caller, c) {
        if s.counts_agree() {
            assert forall|d: CollectionId| #[trigger] next.collections.contains_key(d) implies
                next.item_ids(d).finite() && next.collections[d].amount == next.item_ids(d).len() by {
                if d == c {
                    assert forall|i: ItemId| !s.items.contains_key((c, i)) by {
                        if s.items.contains_key((c, i)) {
                            assert(s.collections.contains_key((c, i).0));
                        }
                    }
                    assert(next.item_ids(c) =~= Set::<ItemId>::empty());
                } else {
                    assert(s.collections.contains_key(d));
                    assert(next.item_ids(d) =~= s.item_ids(d));
                }
            }
        }
    }
}

/// Destroying a collection keeps a ledger well formed and its amounts equal
/// to the numbers of live items.
pub proof fn lemma_destroy_keeps_invariants(s: State, caller: Option<AccountId>, c: CollectionId)
    requires
        s.wf(),
    ensures
        destroy_collection(s, caller, c) matches Ok((next, _)) ==> next.wf() && (s.counts_agree()
            ==> next.counts_agree()),
{
    if let Ok((next, _)) = destroy_collection(s, caller, c) {
        if s.counts_agree() {
            assert forall|d: CollectionId| #[trigger] next.collections.contains_key(d) implies
                next.item_ids(d).finite() && next.collections[d].amount == next.item_ids(d).len() by {
                assert(s.collections.contains_key(d));
                assert(next.item_ids(d) =~= s.item_ids(d));
            }
        }
    }
}

/// Minting an item and burning it again leaves every amount, open offer,
/// holding and withdrawal record as it was before the mint, and no item
/// under the minted number.
pub proof fn lemma_mint_then_burn(
    s: State,
    minter: AccountId,
    burner: AccountId,
    c: CollectionId,
    i: ItemId,
)
    requires
        mint_ntnft(s, Some(minter), c, i) is Ok,
    ensures
        ({
            let minted = mint_ntnft(s, Some(minter), c, i)->Ok_0.0;
            &&& burn_ntnft(minted, Some(burner), c, i) matches Ok((burned, _))
            &&& burned.collections == s.collections
            &&& burned.items == s.items.remove((c, i))
            &&& !burned.items.contains_key((c, i))
            &&& burned.proposed == s.proposed
            &&& burned.assignments == s.assignments
            &&& burned.canceled == s.canceled
        }),
{
    let minted = mint_ntnft(s, Some(minter), c, i)->Ok_0.0;
    let burned = burn_ntnft(minted, Some(burner), c, i)->Ok_0.0;
    assert(burned.collections =~= s.collections);
    assert(burned.items =~= s.items.remove((c, i)));
}

/// An account to which nothing is offered within a collection cannot accept
/// any item of that collection.
pub proof fn lemma_accept_needs_offer(s: State, who: AccountId, c: CollectionId, i: ItemId)
    requires
        !s.proposed.contains_key((c, who)),
    ensures
        accept_assignment(s, Some(who), c, i) == Err::<(State, Event), Error>(
            Error::InvalidState,
        ),
{
}

/// Whether every open offer of `next` was already open in `s`.
pub open spec fn opens_no_offer(s: State, outcome: Outcome) -> bool {
    outcome matches Ok((next, _)) ==> next.proposed.dom().subset_of(s.proposed.dom())
}

/// Open offers come from offering alone: no other operation opens one.
pub proof fn lemma_offers_come_from_assign(
    s: State,
    caller: Option<AccountId>,
    c: CollectionId,
    i: ItemId,
    target: AccountId,
)
    ensures
        opens_no_offer(s, create_collection(s, caller, c)),
        opens_no_offer(s, destroy_collection(s, caller, c)),
        opens_no_offer(s, freeze_collection(s, caller, c)),
        opens_no_offer(s, thaw_collection(s, caller, c)),
        opens_no_offer(s, mint_ntnft(s, caller, c, i)),
        opens_no_offer(s, burn_ntnft(s, caller, c, i)),
        opens_no_offer(s, accept_assignment(s, caller, c, i)),
        opens_no_offer(s, cancel_assignment(s, caller, c, i, target)),
        assign_ntnft(s, caller, c, i, target) matches Ok((next, _)) ==> next.proposed
            == s.proposed.insert((c, target), i),
{
}

/// An offer that its target withdraws returns the item to the record it had
/// before the offer, offered to nobody, and the item can be offered again.
pub proof fn lemma_propose_then_cancel(
    s: State,
    proposer: AccountId,
    c: CollectionId,
    i: ItemId,
    target: AccountId,
    recorded: AccountId,
    again: AccountId,
    again_target: AccountId,
)
    requires
        assign_ntnft(s, Some(proposer), c, i, target) is Ok,
    ensures
        ({
            let offered = assign_ntnft(s, Some(proposer), c, i, target)->Ok_0.0;
            &&& cancel_assignment(offered, Some(target), c, i, recorded) matches Ok((withdrawn, _))
            &&& withdrawn.items == s.items
            &&& withdrawn.items[(c, i)].is_unassigned()
            &&& withdrawn.proposed == s.proposed.remove((c, target))
            &&& assign_ntnft(withdrawn, Some(again), c, i, again_target) is Ok
        }),
{
    let offered = assign_ntnft(s, Some(proposer), c, i, target)->Ok_0.0;
    let withdrawn = cancel_assignment(offered, Some(target), c, i, recorded)->Ok_0.0;
    assert(withdrawn.items =~= s.items);
    assert(withdrawn.proposed =~= s.proposed.remove((c, target)));
}

/// In a collection that has just been frozen, minting and burning are
/// refused as frozen, whatever the item.
pub proof fn lemma_freeze_blocks_mint_and_burn(
    s: State,
    freezer: AccountId,
    c: CollectionId,
    who: AccountId,
    i: ItemId,
)
    requires
        freeze_collection(s, Some(freezer), c) is Ok,
    ensures
        ({
            let frozen = freeze_collection(s, Some(freezer), c)->Ok_0.0;
            &&& mint_ntnft(frozen, Some(who), c, i) == Err::<(State, Event), Error>(
                Error::Frozen,
            )
            &&& burn_ntnft(frozen, Some(who), c, i) == Err::<(State, Event), Error>(
                Error::Frozen,
            )
        }),
{
}

/// Thawing a frozen collection undoes the freeze: minting and burning are
/// no longer refused as frozen, and a ledger whose collection was not frozen
/// before the freeze is back as it was.
pub proof fn lemma_thaw_restores_mint_and_burn(
    s: State,
    freezer: AccountId,
    thawer: AccountId,
    c: CollectionId,
    caller: Option<AccountId>,
    i: ItemId,
)
    requires
        freeze_collection(s, Some(freezer), c) is Ok,
    ensures
        ({
            let frozen = freeze_collection(s, Some(freezer), c)->Ok_0.0;
            &&& thaw_collection(frozen, Some(thawer), c) matches Ok((thawed, _))
            &&& thawed == set_frozen(s, c, false)
            &&& !s.collections[c].is_frozen ==> thawed == s
            &&& mint_ntnft(thawed, caller, c, i) != Err::<(State, Event), Error>(
                Error::Frozen,
            )
            &&& burn_ntnft(thawed, caller, c, i) != Err::<(State, Event), Error>(
                Error::Frozen,
            )
        }),
{
    let frozen = freeze_collection(s, Some(freezer), c)->Ok_0.0;
    let thawed = thaw_collection(frozen, Some(thawer), c)->Ok_0.0;
    assert(thawed.collections =~= set_frozen(s, c, false).collections);
    if !s.collections[c].is_frozen {
        assert(thawed.collections =~= s.collections);
    }
}

/// Destroying a collection leaves none of its items, and leaves no open
/// offer and no holding under it exactly where, before, each of these was
/// keyed by the owner of an item of the collection in the matching phase.
pub proof fn lemma_destroy_leaves_nothing(s: State, who: AccountId, c: CollectionId)
    requires
        destroy_collection(s, Some(who), c) is Ok,
    ensures
        ({
            let destroyed = destroy_collection(s, Some(who), c)->Ok_0.0;
            &&& !destroyed.collections.contains_key(c)
            &&& forall|i: ItemId| !destroyed.items.contains_key((c, i))
            &&& destroyed.nothing_under(c) <==> s.keyed_by_owners(c)
        }),
{
    let destroyed = destroy_collection(s, Some(who), c)->Ok_0.0;
    if s.keyed_by_owners(c) {
        assert forall|a: AccountId| !destroyed.proposed.contains_key((c, a)) by {
            if s.proposed.contains_key((c, a)) {
                assert(s.owners_of_proposed(c).contains(a));
            }
        }
        assert forall|a: AccountId| !destroyed.assignments.contains_key((c, a)) by {
            if s.assignments.contains_key((c, a)) {
                assert(s.owners_of_accepted(c).contains(a));
            }
        }
    }
    if destroyed.nothing_under(c) {
        assert forall|a: AccountId| #[trigger]
            s.proposed.contains_key((c, a)) implies s.owners_of_proposed(c).contains(a) by {
            assert(!destroyed.proposed.contains_key((c, a)));
        }
        assert forall|a: AccountId| #[trigger]
            s.assignments.contains_key((c, a)) implies s.owners_of_accepted(c).contains(a) by {
            assert(!destroyed.assignments.contains_key((c, a)));
        }
    }
}

/// Whether `whole`, the outcome of an operation on ledger `s`, touches
/// collection `c` alone and is told by `part`, the outcome of the same
/// operation on the part of `s` under `c`: both succeed with the same event
/// or are refused for the same reason, the part of the next ledger under `c`
/// is the next ledger of the part, and the rest of `s` stays as it is.
pub open spec fn confined_to(s: State, c: CollectionId, whole: Outcome, part: Outcome) -> bool {
    match whole {
        Ok((next, event)) => part == Ok::<(State, Event), Error>(
            (next.within(c), event),
        ) && next.outside(c) == s.outside(c),
        Err(e) => part == Err::<(State, Event), Error>(e),
    }
}

/// Whether `part` holds the entries of `m` whose key has first component
/// `c`, if `inside` is set, or the other entries of `m`, if it is not.
spec fn is_part<B, V>(
    m: Map<(CollectionId, B), V>,
    part: Map<(CollectionId, B), V>,
    c: CollectionId,
    inside: bool,
) -> bool {
    &&& forall|k: (CollectionId, B)| #[trigger]
        part.contains_key(k) <==> (k.0 == c) == inside && m.contains_key(k)
    &&& forall|k: (CollectionId, B)| #[trigger] part.contains_key(k) ==> part[k] == m[k]
}

/// Two maps with the same entries under first component `c` and the same
/// other entries are equal.
proof fn lemma_same_parts_same_map<B, V>(
    m: Map<(CollectionId, B), V>,
    n: Map<(CollectionId, B), V>,
    under: Map<(CollectionId, B), V>,
    rest: Map<(CollectionId, B), V>,
    c: CollectionId,
)
    requires
        is_part(m, under, c, true),
        is_part(n, under, c, true),
        is_part(m, rest, c, false),
        is_part(n, rest, c, false),
    ensures
        m == n,
{
    assert forall|k: (CollectionId, B)| m.dom().contains(k) == n.dom().contains(k) by {
        if k.0 == c {
            assert(under.contains_key(k) == m.contains_key(k));
            assert(under.contains_key(k) == n.contains_key(k));
        } else {
            assert(rest.contains_key(k) == m.contains_key(k));
            assert(rest.contains_key(k) == n.contains_key(k));
        }
    }
    assert(m.dom() =~= n.dom());
    assert forall|k: (CollectionId, B)| m.dom().contains(k) implies #[trigger] m[k] == n[k] by {
        if k.0 == c {
            assert(under.contains_key(k));
        } else {
            assert(rest.contains_key(k));
        }
    }
    assert(m =~= n);
}

/// The two parts of a ledger, under a collection and outside of it, are equal
/// to those of another ledger only if the ledgers are equal.
pub proof fn lemma_parts_make_the_whole(s: State, t: State, c: CollectionId)
    requires
        s.within(c) == t.within(c),
        s.outside(c) == t.outside(c),
    ensures
        s == t,
{
    let under = s.within(c);
    let rest = s.outside(c);
    assert forall|d: CollectionId| s.collections.dom().contains(d) == t.collections.dom().contains(d) by {
        if d == c {
            assert(under.collections.contains_key(d) == s.collections.contains_key(d));
            assert(t.within(c).collections.contains_key(d) == t.collections.contains_key(d));
        } else {
            assert(rest.collections.contains_key(d) == s.collections.contains_key(d));
            assert(t.outside(c).collections.contains_key(d) == t.collections.contains_key(d));
        }
    }
    assert(s.collections.dom() =~= t.collections.dom());
    assert forall|d: CollectionId| s.collections.dom().contains(d) implies #[trigger] s.collections[d]
        == t.collections[d] by {
        if d == c {
            assert(under.collections.contains_key(d));
            assert(t.within(c).collections[d] == t.collections[d]);
        } else {
            assert(rest.collections.contains_key(d));
            assert(t.outside(c).collections[d] == t.collections[d]);
        }
    }
    assert(s.collections =~= t.collections);
    assert(is_part(t.items, t.within(c).items, c, true));
    assert(is_part(t.items, t.outside(c).items, c, false));
    lemma_same_parts_same_map(s.items, t.items, under.items, rest.items, c);
    assert(is_part(t.proposed, t.within(c).proposed, c, true));
    assert(is_part(t.proposed, t.outside(c).proposed, c, false));
    lemma_same_parts_same_map(s.proposed, t.proposed, under.proposed, rest.proposed, c);
    assert(is_part(t.assignments, t.within(c).assignments, c, true));
    assert(is_part(t.assignments, t.outside(c).assignments, c, false));
    lemma_same_parts_same_map(s.assignments, t.assignments, under.assignments, rest.assignments, c);
    assert(is_part(t.canceled, t.within(c).canceled, c, true));
    assert(is_part(t.canceled, t.outside(c).canceled, c, false));
    lemma_same_parts_same_map(s.canceled, t.canceled, under.canceled, rest.canceled, c);
}

/// Whether two ledgers hold the same five relations.
spec fn same(a: State, b: State) -> bool {
    &&& a.collections =~= b.collections
    &&& a.items =~= b.items
    &&& a.proposed =~= b.proposed
    &&& a.assignments =~= b.assignments
    &&& a.canceled =~= b.canceled
}

/// Every operation reads and writes under its collection alone: what it does
/// to a ledger is what it does to the part of the ledger under that
/// collection, and the rest of the ledger stays as it is.
pub proof fn lemma_operations_are_confined(
    s: State,
    caller: Option<AccountId>,
    c: CollectionId,
    i: ItemId,
    target: AccountId,
)
    ensures
        confined_to(s, c, create_collection(s, caller, c), create_collection(s.within(c), caller, c)),
        confined_to(s, c, destroy_collection(s, caller, c), destroy_collection(s.within(c), caller, c)),
        confined_to(s, c, freeze_collection(s, caller, c), freeze_collection(s.within(c), caller, c)),
        confined_to(s, c, thaw_collection(s, caller, c), thaw_collection(s.within(c), caller, c)),
        confined_to(s, c, mint_ntnft(s, caller, c, i), mint_ntnft(s.within(c), caller, c, i)),
        confined_to(s, c, burn_ntnft(s, caller, c, i), burn_ntnft(s.within(c), caller, c, i)),
        confined_to(
            s,
            c,
            assign_ntnft(s, caller, c, i, target),
            assign_ntnft(s.within(c), caller, c, i, target),
        ),
        confined_to(
            s,
            c,
            accept_assignment(s, caller, c, i),
            accept_assignment(s.within(c), caller, c, i),
        ),
        confined_to(
            s,
            c,
            cancel_assignment(s, caller, c, i, target),
            cancel_assignment(s.within(c), caller, c, i, target),
        ),
        confined_to(s, c, discard_ntnft(s, caller, c, i), discard_ntnft(s.within(c), caller, c, i)),
        confined_to(s, c, force_create(s, caller, c), force_create(s.within(c), caller, c)),
        confined_to(
            s,
            c,
            force_collection_status(s, caller, c),
            force_collection_status(s.within(c), caller, c),
        ),
{
    let part = s.within(c);
    if let Ok((next, _)) = create_collection(s, caller, c) {
        assert(same(create_collection(part, caller, c)->Ok_0.0, next.within(c)));
        assert(same(next.outside(c), s.outside(c)));
    }
    if let Ok((next, _)) = destroy_collection(s, caller, c) {
        assert(part.owners_of_proposed(c) =~= s.owners_of_proposed(c)) by {
            assert forall|a: AccountId|
                part.owners_of_proposed(c).contains(a) == s.owners_of_proposed(c).contains(a) by {
                if part.owners_of_proposed(c).contains(a) {
                    let j = choose|j: ItemId|
                        #![trigger part.items[(c, j)]]
                        part.items.contains_key((c, j)) && part.items[(c, j)].owner == a
                            && part.items[(c, j)].is_proposed();
                    assert(s.items.contains_key((c, j)) && s.items[(c, j)].owner == a && s.items[(
                        c,
                        j,
                    )].is_proposed());
                }
                if s.owners_of_proposed(c).contains(a) {
                    let j = choose|j: ItemId|
                        #![trigger s.items[(c, j)]]
                        s.items.contains_key((c, j)) && s.items[(c, j)].owner == a && s.items[(
                            c,
                            j,
                        )].is_proposed();
                    assert(part.items.contains_key((c, j)) && part.items[(c, j)].owner == a
                        && part.items[(c, j)].is_proposed());
                }
            }
        }
        assert(part.owners_of_accepted(c) =~= s.owners_of_accepted(c)) by {
            assert forall|a: AccountId|
                part.owners_of_accepted(c).contains(a) == s.owners_of_accepted(c).contains(a) by {
                if part.owners_of_accepted(c).contains(a) {
                    let j = choose|j: ItemId|
                        #![trigger part.items[(c, j)]]
                        part.items.contains_key((c, j)) && part.items[(c, j)].owner == a
                            && part.items[(c, j)].is_accepted;
                    assert(s.items.contains_key((c, j)) && s.items[(c, j)].owner == a && s.items[(
                        c,
                        j,
                    )].is_accepted);
                }
                if s.owners_of_accepted(c).contains(a) {
                    let j = choose|j: ItemId|
                        #![trigger s.items[(c, j)]]
                        s.items.contains_key((c, j)) && s.items[(c, j)].owner == a && s.items[(
                            c,
                            j,
                        )].is_accepted;
                    assert(part.items.contains_key((c, j)) && part.items[(c, j)].owner == a
                        && part.items[(c, j)].is_accepted);
                }
            }
        }
        assert(same(destroy_collection(part, caller, c)->Ok_0.0, next.within(c)));
        assert(same(next.outside(c), s.outside(c)));
    }
    if let Ok((next, _)) = freeze_collection(s, caller, c) {
        assert(same(freeze_collection(part, caller, c)->Ok_0.0, next.within(c)));
        assert(same(next.outside(c), s.outside(c)));
    }
    if let Ok((next, _)) = thaw_collection(s, caller, c) {
        assert(same(thaw_collection(part, caller, c)->Ok_0.0, next.within(c)));
        assert(same(next.outside(c), s.outside(c)));
    }
    if let Ok((next, _)) = mint_ntnft(s, caller, c, i) {
        assert(same(mint_ntnft(part, caller, c, i)->Ok_0.0, next.within(c)));
        assert(same(next.outside(c), s.outside(c)));
    }
    if let Ok((next, _)) = burn_ntnft(s, caller, c, i) {
        assert(same(burn_ntnft(part, caller, c, i)->Ok_0.0, next.within(c)));
        assert(same(next.outside(c), s.outside(c)));
    }
    if let Ok((next, _)) = assign_ntnft(s, caller, c, i, target) {
        assert(same(assign_ntnft(part, caller, c, i, target)->Ok_0.0, next.within(c)));
        assert(same(next.outside(c), s.outside(c)));
    }
    if let Ok((next, _)) = accept_assignment(s, caller, c, i) {
        assert(same(accept_assignment(part, caller, c, i)->Ok_0.0, next.within(c)));
        assert(same(next.outside(c), s.outside(c)));
    }
    if let Ok((next, _)) = cancel_assignment(s, caller, c, i, target) {
        assert(same(cancel_assignment(part, caller, c, i, target)->Ok_0.0, next.within(c)));
        assert(same(next.outside(c), s.outside(c)));
    }
}

} // verus!
