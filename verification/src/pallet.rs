use crate::laws::{
    lemma_accept_keeps_invariants, lemma_assign_keeps_invariants, lemma_burn_keeps_invariants,
    lemma_cancel_keeps_invariants, lemma_create_keeps_invariants, lemma_destroy_keeps_invariants,
    lemma_freeze_keeps_invariants, lemma_mint_keeps_invariants, lemma_thaw_keeps_invariants,
};
use crate::model;
use crate::model::State;
use crate::pair_map::{lists, map_entries, PairMap};
use crate::types::{AccountId, CollectionDetails, CollectionId, Error, Event, ItemDetails, ItemId};
use std::collections::HashMap;
use vstd::prelude::*;
use vstd::std_specs::hash::spec_values_iter;
use vstd::std_specs::iter::IteratorSpec;

verus! {

broadcast use vstd::std_specs::hash::group_hash_axioms;

/// The owners of the offered, not accepted items among the first `n` of `records`.
spec fn proposed_owners_among(records: Seq<ItemDetails>, n: int) -> Set<AccountId> {
    Set::new(
        |a: AccountId|
            exists|j: int|
                0 <= j < n && (#[trigger] records[j]).owner == a && records[j].is_proposed(),
    )
}

/// The owners of the accepted items among the first `n` of `records`.
spec fn accepted_owners_among(records: Seq<ItemDetails>, n: int) -> Set<AccountId> {
    Set::new(
        |a: AccountId|
            exists|j: int| 0 <= j < n && (#[trigger] records[j]).owner == a && records[j].is_accepted,
    )
}

/// `m` without the entries of collection `c` that are keyed by an account in `owners`.
spec fn without_owners(
    m: Map<(CollectionId, AccountId), ItemId>,
    c: CollectionId,
    owners: Set<AccountId>,
) -> Map<(CollectionId, AccountId), ItemId> {
    Map::new(
        |k: (CollectionId, AccountId)| m.contains_key(k) && !(k.0 == c && owners.contains(k.1)),
        |k: (CollectionId, AccountId)| m[k],
    )
}

/// Taking one more record into account adds at most its owner.
proof fn lemma_owners_among_step(records: Seq<ItemDetails>, n: int)
    requires
        0 <= n < records.len(),
    ensures
        proposed_owners_among(records, n + 1) == if records[n].is_proposed() {
            proposed_owners_among(records, n).insert(records[n].owner)
        } else {
            proposed_owners_among(records, n)
        },
        accepted_owners_among(records, n + 1) == if records[n].is_accepted {
            accepted_owners_among(records, n).insert(records[n].owner)
        } else {
            accepted_owners_among(records, n)
        },
{
    let p = if records[n].is_proposed() {
        proposed_owners_among(records, n).insert(records[n].owner)
    } else {
        proposed_owners_among(records, n)
    };
    assert forall|a: AccountId| proposed_owners_among(records, n + 1).contains(a) == p.contains(a) by {
        if proposed_owners_among(records, n + 1).contains(a) {
            let j = choose|j: int|
                0 <= j < n + 1 && (#[trigger] records[j]).owner == a && records[j].is_proposed();
            if j < n {
                assert(proposed_owners_among(records, n).contains(a));
            }
        }
        if p.contains(a) {
            if proposed_owners_among(records, n).contains(a) {
                let j = choose|j: int|
                    0 <= j < n && (#[trigger] records[j]).owner == a && records[j].is_proposed();
                assert(0 <= j < n + 1 && records[j].owner == a && records[j].is_proposed());
            } else {
                assert(0 <= n < n + 1 && records[n].owner == a && records[n].is_proposed());
            }
        }
    }
    assert(proposed_owners_among(records, n + 1) =~= p);
    let q = if records[n].is_accepted {
        accepted_owners_among(records, n).insert(records[n].owner)
    } else {
        accepted_owners_among(records, n)
    };
    assert forall|a: AccountId| accepted_owners_among(records, n + 1).contains(a) == q.contains(a) by {
        if accepted_owners_among(records, n + 1).contains(a) {
            let j = choose|j: int|
                0 <= j < n + 1 && (#[trigger] records[j]).owner == a && records[j].is_accepted;
            if j < n {
                assert(accepted_owners_among(records, n).contains(a));
            }
        }
        if q.contains(a) {
            if accepted_owners_among(records, n).contains(a) {
                let j = choose|j: int|
                    0 <= j < n && (#[trigger] records[j]).owner == a && records[j].is_accepted;
                assert(0 <= j < n + 1 && records[j].owner == a && records[j].is_accepted);
            } else {
                assert(0 <= n < n + 1 && records[n].owner == a && records[n].is_accepted);
            }
        }
    }
    assert(accepted_owners_among(records, n + 1) =~= q);
}

/// Where `records` lists what is recorded about the items of collection `c`,
/// the owners found among all of them are the owners that the ledger names.
proof fn lemma_owners_among_all(s: State, c: CollectionId, records: Seq<ItemDetails>)
    requires
        records.to_set() == PairMap::<ItemDetails>::under_prefix(s.items, c).values(),
    ensures
        proposed_owners_among(records, records.len() as int) == s.owners_of_proposed(c),
        accepted_owners_among(records, records.len() as int) == s.owners_of_accepted(c),
{
    let under = PairMap::<ItemDetails>::under_prefix(s.items, c);
    let len = records.len() as int;
    assert forall|a: AccountId|
        proposed_owners_among(records, len).contains(a) == s.owners_of_proposed(c).contains(a) by {
        if proposed_owners_among(records, len).contains(a) {
            let j = choose|j: int|
                0 <= j < len && (#[trigger] records[j]).owner == a && records[j].is_proposed();
            assert(records.contains(records[j]));
            assert(records.to_set().contains(records[j]));
            assert(under.contains_value(records[j]));
            let i = choose|i: ItemId| #[trigger] under.contains_key(i) && under[i] == records[j];
            assert(s.items.contains_key((c, i)) && s.items[(c, i)].owner == a && s.items[(c, i)].is_proposed());
        }
        if s.owners_of_proposed(c).contains(a) {
            let i = choose|i: ItemId|
                #![trigger s.items[(c, i)]]
                s.items.contains_key((c, i)) && s.items[(c, i)].owner == a && s.items[(c, i)].is_proposed();
            assert(under.contains_key(i) && under[i] == s.items[(c, i)]);
            assert(under.contains_value(s.items[(c, i)]));
            assert(records.to_set().contains(s.items[(c, i)]));
            assert(records.contains(s.items[(c, i)]));
            let j = choose|j: int| 0 <= j < records.len() && records[j] == s.items[(c, i)];
            assert(0 <= j < len && records[j].owner == a && records[j].is_proposed());
        }
    }
    assert(proposed_owners_among(records, len) =~= s.owners_of_proposed(c));
    assert forall|a: AccountId|
        accepted_owners_among(records, len).contains(a) == s.owners_of_accepted(c).contains(a) by {
        if accepted_owners_among(records, len).contains(a) {
            let j = choose|j: int|
                0 <= j < len && (#[trigger] records[j]).owner == a && records[j].is_accepted;
            assert(records.contains(records[j]));
            assert(records.to_set().contains(records[j]));
            assert(under.contains_value(records[j]));
            let i = choose|i: ItemId| #[trigger] under.contains_key(i) && under[i] == records[j];
            assert(s.items.contains_key((c, i)) && s.items[(c, i)].owner == a && s.items[(c, i)].is_accepted);
        }
        if s.owners_of_accepted(c).contains(a) {
            let i = choose|i: ItemId|
                #![trigger s.items[(c, i)]]
                s.items.contains_key((c, i)) && s.items[(c, i)].owner == a && s.items[(c, i)].is_accepted;
            assert(under.contains_key(i) && under[i] == s.items[(c, i)]);
            assert(under.contains_value(s.items[(c, i)]));
            assert(records.to_set().contains(s.items[(c, i)]));
            assert(records.contains(s.items[(c, i)]));
            let j = choose|j: int| 0 <= j < records.len() && records[j] == s.items[(c, i)];
            assert(0 <= j < len && records[j].owner == a && records[j].is_accepted);
        }
    }
    assert(accepted_owners_among(records, len) =~= s.owners_of_accepted(c));
}

/// The ledger of collections, items and assignments.
///
/// Every operation takes the caller as the caller resolver reported it:
/// `Some` account, or `None` where the caller could not be resolved. An
/// operation either applies as a whole and returns the event to announce, or
/// returns the reason for its refusal and leaves the ledger untouched.
pub struct Pallet {
    collections: HashMap<CollectionId, CollectionDetails>,
    items: PairMap<ItemDetails>,
    proposed: PairMap<ItemId>,
    assignments: PairMap<ItemId>,
    canceled: PairMap<ItemId>,
}

impl View for Pallet {
    type V = State;

    closed spec fn view(&self) -> State {
        State {
            collections: self.collections@,
            items: self.items@,
            proposed: self.proposed@,
            assignments: self.assignments@,
            canceled: self.canceled@,
        }
    }
}

impl Pallet {
    /// The ledger in which nothing is registered.
    pub fn new() -> (p: Pallet)
        ensures
            p@ == State::empty(),
            p@.wf(),
            p@.counts_agree(),
    {
        let p = Pallet {
            collections: HashMap::new(),
            items: PairMap::new(),
            proposed: PairMap::new(),
            assignments: PairMap::new(),
            canceled: PairMap::new(),
        };
        assert(p@ == State::empty());
        p
    }

    /// What is recorded about collection `collection_id`, if it is registered.
    pub fn collection(&self, collection_id: CollectionId) -> (r: Option<CollectionDetails>)
        ensures
            r == (if self@.collections.contains_key(collection_id) {
                Some(self@.collections[collection_id])
            } else {
                None
            }),
    {
        match self.collections.get(&collection_id) {
            Some(details) => Some(*details),
            None => None,
        }
    }

    /// What is recorded about item `ntnft_id` of collection `collection_id`, if it exists.
    pub fn item(&self, collection_id: CollectionId, ntnft_id: ItemId) -> (r: Option<ItemDetails>)
        ensures
            r == (if self@.items.contains_key((collection_id, ntnft_id)) {
                Some(self@.items[(collection_id, ntnft_id)])
            } else {
                None
            }),
    {
        self.items.get(collection_id, ntnft_id)
    }

    /// The item that `account` holds within collection `collection_id`, if any.
    pub fn assignment(&self, collection_id: CollectionId, account: AccountId) -> (r: Option<ItemId>)
        ensures
            r == (if self@.assignments.contains_key((collection_id, account)) {
                Some(self@.assignments[(collection_id, account)])
            } else {
                None
            }),
    {
        self.assignments.get(collection_id, account)
    }

    /// The item offered to `account` within collection `collection_id`, if an offer is open.
    pub fn proposed_assignment(&self, collection_id: CollectionId, account: AccountId) -> (r: Option<ItemId>)
        ensures
            r == (if self@.proposed.contains_key((collection_id, account)) {
                Some(self@.proposed[(collection_id, account)])
            } else {
                None
            }),
    {
        self.proposed.get(collection_id, account)
    }

    /// The item of the last withdrawn offer recorded against `account` within
    /// collection `collection_id`, if any.
    pub fn canceled_assignment(&self, collection_id: CollectionId, account: AccountId) -> (r: Option<ItemId>)
        ensures
            r == (if self@.canceled.contains_key((collection_id, account)) {
                Some(self@.canceled[(collection_id, account)])
            } else {
                None
            }),
    {
        self.canceled.get(collection_id, account)
    }

    /// Every registered collection with what is recorded about it, each once.
    pub fn collections(&self) -> (r: Vec<(CollectionId, CollectionDetails)>)
        ensures
            lists(r@, self@.collections),
    {
        map_entries(&self.collections)
    }

    /// Every live item, keyed by collection and item number, each once.
    pub fn items(&self) -> (r: Vec<((CollectionId, ItemId), ItemDetails)>)
        ensures
            lists(r@, self@.items),
    {
        self.items.entries()
    }

    /// Every open offer, keyed by collection and target account, each once.
    pub fn proposed_assignments(&self) -> (r: Vec<((CollectionId, AccountId), ItemId)>)
        ensures
            lists(r@, self@.proposed),
    {
        self.proposed.entries()
    }

    /// Every accepted holding, keyed by collection and holder, each once.
    pub fn assignments(&self) -> (r: Vec<((CollectionId, AccountId), ItemId)>)
        ensures
            lists(r@, self@.assignments),
    {
        self.assignments.entries()
    }

    /// Every record of a withdrawn offer, keyed by collection and account, each once.
    pub fn canceled_assignments(&self) -> (r: Vec<((CollectionId, AccountId), ItemId)>)
        ensures
            lists(r@, self@.canceled),
    {
        self.canceled.entries()
    }

    /// Records collection `collection_id` as `details`, as when a ledger is
    /// rebuilt from stored records; nothing is checked and nothing else changes.
    pub fn load_collection(&mut self, collection_id: CollectionId, details: CollectionDetails)
        ensures
            final(self)@.collections == old(self)@.collections.insert(collection_id, details),
            final(self)@.items == old(self)@.items,
            final(self)@.proposed == old(self)@.proposed,
            final(self)@.assignments == old(self)@.assignments,
            final(self)@.canceled == old(self)@.canceled,
            old(self)@.wf() ==> final(self)@.wf(),
    {
        self.collections.insert(collection_id, details);
    }

    /// Records item `ntnft_id` of collection `collection_id` as `details`,
    /// as when a ledger is rebuilt from stored records.
    ///
    /// Refused with `NotFound` where the collection is not registered, and
    /// with `InvalidState` where `details` is accepted without being offered.
    pub fn load_item(&mut self, collection_id: CollectionId, ntnft_id: ItemId, details: ItemDetails) -> (r:
        Result<(), Error>)
        ensures
            r == (if !old(self)@.collections.contains_key(collection_id) {
                Err::<(), Error>(Error::NotFound)
            } else if details.is_accepted && !details.is_assigned {
                Err::<(), Error>(Error::InvalidState)
            } else {
                Ok::<(), Error>(())
            }),
            final(self)@.items == (if r is Ok {
                old(self)@.items.insert((collection_id, ntnft_id), details)
            } else {
                old(self)@.items
            }),
            final(self)@.collections == old(self)@.collections,
            final(self)@.proposed == old(self)@.proposed,
            final(self)@.assignments == old(self)@.assignments,
            final(self)@.canceled == old(self)@.canceled,
            old(self)@.wf() ==> final(self)@.wf(),
    {
        if !self.collections.contains_key(&collection_id) {
            return Err(Error::NotFound);
        }
        if details.is_accepted && !details.is_assigned {
            return Err(Error::InvalidState);
        }
        self.items.insert(collection_id, ntnft_id, details);
        proof {
            if old(self)@.wf() {
                assert forall|k: (CollectionId, ItemId)| #[trigger]
                    self@.items.contains_key(k) implies self@.collections.contains_key(k.0) && (
                self@.items[k].is_accepted ==> self@.items[k].is_assigned) by {
                    if k != (collection_id, ntnft_id) {
                        assert(old(self)@.items.contains_key(k));
                    }
                }
            }
        }
        Ok(())
    }

    /// Records `ntnft_id` as the item offered to `account` within collection
    /// `collection_id`, as when a ledger is rebuilt from stored records.
    pub fn load_proposed_assignment(&mut self, collection_id: CollectionId, account: AccountId, ntnft_id: ItemId)
        ensures
            final(self)@.proposed == old(self)@.proposed.insert((collection_id, account), ntnft_id),
            final(self)@.collections == old(self)@.collections,
            final(self)@.items == old(self)@.items,
            final(self)@.assignments == old(self)@.assignments,
            final(self)@.canceled == old(self)@.canceled,
            old(self)@.wf() ==> final(self)@.wf(),
    {
        self.proposed.insert(collection_id, account, ntnft_id);
    }

    /// Records `ntnft_id` as the item that `account` holds within collection
    /// `collection_id`, as when a ledger is rebuilt from stored records.
    pub fn load_assignment(&mut self, collection_id: CollectionId, account: AccountId, ntnft_id: ItemId)
        ensures
            final(self)@.assignments == old(self)@.assignments.insert((collection_id, account), ntnft_id),
            final(self)@.collections == old(self)@.collections,
            final(self)@.items == old(self)@.items,
            final(self)@.proposed == old(self)@.proposed,
            final(self)@.canceled == old(self)@.canceled,
            old(self)@.wf() ==> final(self)@.wf(),
    {
        self.assignments.insert(collection_id, account, ntnft_id);
    }

    /// Records `ntnft_id` as the item of the last offer withdrawn against
    /// `account` within collection `collection_id`, as when a ledger is
    /// rebuilt from stored records.
    pub fn load_canceled_assignment(&mut self, collection_id: CollectionId, account: AccountId, ntnft_id: ItemId)
        ensures
            final(self)@.canceled == old(self)@.canceled.insert((collection_id, account), ntnft_id),
            final(self)@.collections == old(self)@.collections,
            final(self)@.items == old(self)@.items,
            final(self)@.proposed == old(self)@.proposed,
            final(self)@.assignments == old(self)@.assignments,
            old(self)@.wf() ==> final(self)@.wf(),
    {
        self.canceled.insert(collection_id, account, ntnft_id);
    }

    /// Burns item `ntnft_id` of collection `collection_id`.
    ///
    /// Refused with `Unauthenticated` for an unresolved caller, `NotFound`
    /// where the collection is not registered, `Frozen` where it is frozen,
    /// `ArithmeticUnderflow` where its amount is zero, and `NotFound` where
    /// the item does not exist, in this order. Otherwise the amount goes down
    /// by one and the item is removed, together with the holding of its owner
    /// if it was accepted, or the open offer to its owner if it was offered.
    pub fn burn_ntnft(
        &mut self,
        caller: Option<AccountId>,
        collection_id: CollectionId,
        ntnft_id: ItemId,
    ) -> (r: Result<Event, Error>)
        ensures
            model::applies(
                model::burn_ntnft(old(self)@, caller, collection_id, ntnft_id),
                old(self)@,
                final(self)@,
                r,
            ),
            old(self)@.wf() ==> final(self)@.wf(),
            old(self)@.wf() && old(self)@.counts_agree() ==> final(self)@.counts_agree(),
    {
        let who = match caller {
            Some(who) => who,
            None => { return Err(Error::Unauthenticated); },
        };
        let details = match self.collections.get(&collection_id) {
            Some(details) => *details,
            None => { return Err(Error::NotFound); },
        };
        if details.is_frozen {
            return Err(Error::Frozen);
        }
        let new_amount = match details.amount.checked_sub(1) {
            Some(n) => n,
            None => { return Err(Error::ArithmeticUnderflow); },
        };
        let item = match self.items.get(collection_id, ntnft_id) {
            Some(item) => item,
            None => { return Err(Error::NotFound); },
        };
        self.collections.insert(
            collection_id,
            CollectionDetails { owner: details.owner, amount: new_amount, is_frozen: details.is_frozen },
        );
        if item.is_accepted {
            self.assignments.remove(collection_id, item.owner);
        } else if item.is_assigned {
            self.proposed.remove(collection_id, item.owner);
        }
        self.items.remove(collection_id, ntnft_id);
        proof {
            if old(self)@.wf() {
                lemma_burn_keeps_invariants(old(self)@, caller, collection_id, ntnft_id);
            }
        }
        Ok(Event::ItemBurned { collection: collection_id, item: ntnft_id, who })
    }

    /// Withdraws the offer of item `ntnft_id` of collection `collection_id`.
    ///
    /// Refused with `Unauthenticated` for an unresolved caller, and with
    /// `InvalidState` unless an offer to the caller is open within the
    /// collection and the item exists, is offered and is not accepted.
    /// Otherwise the item is offered to nobody again, the open offer to the
    /// caller is removed, and the withdrawal is recorded against
    /// `target_address`, which need not be the caller.
    pub fn cancel_assignment(
        &mut self,
        caller: Option<AccountId>,
        collection_id: CollectionId,
        ntnft_id: ItemId,
        target_address: AccountId,
    ) -> (r: Result<Event, Error>)
        ensures
            model::applies(
                model::cancel_assignment(old(self)@, caller, collection_id, ntnft_id, target_address),
                old(self)@,
                final(self)@,
                r,
            ),
            old(self)@.wf() ==> final(self)@.wf(),
            old(self)@.wf() && old(self)@.counts_agree() ==> final(self)@.counts_agree(),
    {
        let who = match caller {
            Some(who) => who,
            None => { return Err(Error::Unauthenticated); },
        };
        if !self.proposed.contains_key(collection_id, who) {
            return Err(Error::InvalidState);
        }
        let item = match self.items.get(collection_id, ntnft_id) {
            Some(item) => item,
            None => { return Err(Error::InvalidState); },
        };
        if item.is_accepted || !item.is_assigned {
            return Err(Error::InvalidState);
        }
        self.items.insert(
            collection_id,
            ntnft_id,
            ItemDetails { owner: item.owner, is_assigned: false, is_accepted: false },
        );
        self.proposed.remove(collection_id, who);
        self.canceled.insert(collection_id, target_address, ntnft_id);
        proof {
            if old(self)@.wf() {
                lemma_cancel_keeps_invariants(old(self)@, caller, collection_id, ntnft_id, target_address);
            }
        }
        Ok(Event::AssignmentCanceled { who, collection: collection_id, item: ntnft_id, target: target_address })
    }

    /// Mints item `ntnft_id` in collection `collection_id` for the caller.
    ///
    /// Refused with `Unauthenticated` for an unresolved caller, `NotFound`
    /// where the collection is not registered, `Frozen` where it is frozen,
    /// and `ArithmeticOverflow` where its amount cannot grow, in this order.
    /// Otherwise the amount goes up by one and the item is recorded as owned
    /// by the caller and offered to nobody. An item already recorded under
    /// the same number is replaced; only then does the amount stop being the
    /// number of live items.
    pub fn mint_ntnft(
        &mut self,
        caller: Option<AccountId>,
        collection_id: CollectionId,
        ntnft_id: ItemId,
    ) -> (r: Result<Event, Error>)
        ensures
            model::applies(
                model::mint_ntnft(old(self)@, caller, collection_id, ntnft_id),
                old(self)@,
                final(self)@,
                r,
            ),
            old(self)@.wf() ==> final(self)@.wf(),
            old(self)@.wf() && old(self)@.counts_agree() ==> (final(self)@.counts_agree() <==> !(r is Ok
                && old(self)@.items.contains_key((collection_id, ntnft_id)))),
    {
        let who = match caller {
            Some(who) => who,
            None => { return Err(Error::Unauthenticated); },
        };
        let details = match self.collections.get(&collection_id) {
            Some(details) => *details,
            None => { return Err(Error::NotFound); },
        };
        if details.is_frozen {
            return Err(Error::Frozen);
        }
        let new_amount = match details.amount.checked_add(1) {
            Some(n) => n,
            None => { return Err(Error::ArithmeticOverflow); },
        };
        self.collections.insert(
            collection_id,
            CollectionDetails { owner: details.owner, amount: new_amount, is_frozen: details.is_frozen },
        );
        self.items.insert(
            collection_id,
            ntnft_id,
            ItemDetails { owner: who, is_assigned: false, is_accepted: false },
        );
        proof {
            if old(self)@.wf() {
                lemma_mint_keeps_invariants(old(self)@, caller, collection_id, ntnft_id);
            }
        }
        Ok(Event::ItemMinted { collection: collection_id, item: ntnft_id, who })
    }

    /// The caller accepts item `ntnft_id` of collection `collection_id`.
    ///
    /// Refused with `Unauthenticated` for an unresolved caller, and with
    /// `InvalidState` unless an offer to the caller is open within the
    /// collection and the item exists, is offered and is not accepted; so an
    /// account to which nothing was offered can accept nothing. Otherwise the
    /// item becomes accepted, the open offer to the caller is removed, and
    /// the item is recorded as the caller's holding within the collection.
    pub fn accept_assignment(
        &mut self,
        caller: Option<AccountId>,
        collection_id: CollectionId,
        ntnft_id: ItemId,
    ) -> (r: Result<Event, Error>)
        ensures
            model::applies(
                model::accept_assignment(old(self)@, caller, collection_id, ntnft_id),
                old(self)@,
                final(self)@,
                r,
            ),
            caller matches Some(who) && !old(self)@.proposed.contains_key((collection_id, who)) ==> r
                == Err::<Event, Error>(Error::InvalidState),
            old(self)@.wf() ==> final(self)@.wf(),
            old(self)@.wf() && old(self)@.counts_agree() ==> final(self)@.counts_agree(),
    {
        let who = match caller {
            Some(who) => who,
            None => { return Err(Error::Unauthenticated); },
        };
        if !self.proposed.contains_key(collection_id, who) {
            return Err(Error::InvalidState);
        }
        let item = match self.items.get(collection_id, ntnft_id) {
            Some(item) => item,
            None => { return Err(Error::InvalidState); },
        };
        if item.is_accepted || !item.is_assigned {
            return Err(Error::InvalidState);
        }
        self.items.insert(
            collection_id,
            ntnft_id,
            ItemDetails { owner: item.owner, is_assigned: item.is_assigned, is_accepted: true },
        );
        self.proposed.remove(collection_id, who);
        self.assignments.insert(collection_id, who, ntnft_id);
        proof {
            if old(self)@.wf() {
                lemma_accept_keeps_invariants(old(self)@, caller, collection_id, ntnft_id);
            }
        }
        Ok(Event::AssignmentAccepted { collection: collection_id, item: ntnft_id, who })
    }

    /// Offers item `ntnft_id` of collection `collection_id` to `target_address`.
    ///
    /// Refused with `Unauthenticated` for an unresolved caller, `NotFound`
    /// where the item does not exist, and `InvalidState` where it is already
    /// offered or accepted, in this order. Otherwise the item becomes offered
    /// and is recorded as the open offer to `target_address` within the
    /// collection, in place of any earlier open offer to that account.
    pub fn assign_ntnft(
        &mut self,
        caller: Option<AccountId>,
        collection_id: CollectionId,
        ntnft_id: ItemId,
        target_address: AccountId,
    ) -> (r: Result<Event, Error>)
        ensures
            model::applies(
                model::assign_ntnft(old(self)@, caller, collection_id, ntnft_id, target_address),
                old(self)@,
                final(self)@,
                r,
            ),
            old(self)@.wf() ==> final(self)@.wf(),
            old(self)@.wf() && old(self)@.counts_agree() ==> final(self)@.counts_agree(),
    {
        let who = match caller {
            Some(who) => who,
            None => { return Err(Error::Unauthenticated); },
        };
        let item = match self.items.get(collection_id, ntnft_id) {
            Some(item) => item,
            None => { return Err(Error::NotFound); },
        };
        if item.is_accepted || item.is_assigned {
            return Err(Error::InvalidState);
        }
        self.items.insert(
            collection_id,
            ntnft_id,
            ItemDetails { owner: item.owner, is_assigned: true, is_accepted: item.is_accepted },
        );
        self.proposed.insert(collection_id, target_address, ntnft_id);
        proof {
            if old(self)@.wf() {
                lemma_assign_keeps_invariants(old(self)@, caller, collection_id, ntnft_id, target_address);
            }
        }
        Ok(Event::AssignmentProposed { who, collection: collection_id, item: ntnft_id, target: target_address })
    }

    /// Removes collection `collection_id` and everything in it.
    ///
    /// Refused with `Unauthenticated` for an unresolved caller and `NotFound`
    /// where the collection is not registered. Otherwise the collection and
    /// all its items are removed; with each accepted item goes the holding of
    /// the item's owner within the collection, with each offered item the
    /// open offer to the item's owner. Offers and holdings of other accounts
    /// stay, as do the records of withdrawn offers.
    pub fn destroy_collection(&mut self, caller: Option<AccountId>, collection_id: CollectionId) -> (r: Result<
        Event,
        Error,
    >)
        ensures
            model::applies(
                model::destroy_collection(old(self)@, caller, collection_id),
                old(self)@,
                final(self)@,
                r,
            ),
            r is Ok ==> forall|i: ItemId| !final(self)@.items.contains_key((collection_id, i)),
            old(self)@.wf() ==> final(self)@.wf(),
            old(self)@.wf() && old(self)@.counts_agree() ==> final(self)@.counts_agree(),
    {
        let who = match caller {
            Some(who) => who,
            None => { return Err(Error::Unauthenticated); },
        };
        if !self.collections.contains_key(&collection_id) {
            return Err(Error::NotFound);
        }
        let ghost before = self@;
        let taken = self.items.take_prefix(collection_id);
        let ghost records = spec_values_iter(&taken).remaining().unref();
        let ghost mut n: int = 0;
        for details in it: taken.values()
            invariant
                it.seq().unref() == records,
                it.seq().len() == records.len(),
                n == it.index(),
                self.collections@ == before.collections,
                self.items@ == PairMap::<ItemDetails>::without_prefix(before.items, collection_id),
                self.canceled@ == before.canceled,
                self.proposed@ == without_owners(
                    before.proposed,
                    collection_id,
                    proposed_owners_among(records, n),
                ),
                self.assignments@ == without_owners(
                    before.assignments,
                    collection_id,
                    accepted_owners_among(records, n),
                ),
        {
            assert(*details == records[n]);
            if details.is_accepted {
                self.assignments.remove(collection_id, details.owner);
            } else if details.is_assigned {
                self.proposed.remove(collection_id, details.owner);
            }
            proof {
                lemma_owners_among_step(records, n);
                assert(self.proposed@ =~= without_owners(
                    before.proposed,
                    collection_id,
                    proposed_owners_among(records, n + 1),
                ));
                assert(self.assignments@ =~= without_owners(
                    before.assignments,
                    collection_id,
                    accepted_owners_among(records, n + 1),
                ));
                n = n + 1;
            }
        }
        self.collections.remove(&collection_id);
        proof {
            lemma_owners_among_all(before, collection_id, records);
            let next = model::destroy_collection(before, caller, collection_id)->Ok_0.0;
            assert(self@.proposed =~= next.proposed);
            assert(self@.assignments =~= next.assignments);
            assert(self@.items =~= next.items);
            if before.wf() {
                lemma_destroy_keeps_invariants(before, caller, collection_id);
            }
        }
        Ok(Event::CollectionDestroyed { collection: collection_id, who })
    }

    /// Freezes collection `collection_id`.
    ///
    /// Refused with `Unauthenticated` for an unresolved caller and `NotFound`
    /// where the collection is not registered. Otherwise the collection is
    /// frozen, whoever the caller is, and nothing else changes.
    pub fn freeze_collection(&mut self, caller: Option<AccountId>, collection_id: CollectionId) -> (r: Result<
        Event,
        Error,
    >)
        ensures
            model::applies(
                model::freeze_collection(old(self)@, caller, collection_id),
                old(self)@,
                final(self)@,
                r,
            ),
            old(self)@.wf() ==> final(self)@.wf(),
            old(self)@.wf() && old(self)@.counts_agree() ==> final(self)@.counts_agree(),
    {
        let who = match caller {
            Some(who) => who,
            None => { return Err(Error::Unauthenticated); },
        };
        let details = match self.collections.get(&collection_id) {
            Some(details) => *details,
            None => { return Err(Error::NotFound); },
        };
        self.collections.insert(
            collection_id,
            CollectionDetails { owner: details.owner, amount: details.amount, is_frozen: true },
        );
        proof {
            if old(self)@.wf() {
                lemma_freeze_keeps_invariants(old(self)@, caller, collection_id);
            }
        }
        Ok(Event::CollectionFrozen { collection: collection_id, who })
    }

    /// Thaws collection `collection_id`.
    ///
    /// Refused with `Unauthenticated` for an unresolved caller and `NotFound`
    /// where the collection is not registered. Otherwise the collection is
    /// no longer frozen, whoever the caller is, and nothing else changes.
    pub fn thaw_collection(&mut self, caller: Option<AccountId>, collection_id: CollectionId) -> (r: Result<
        Event,
        Error,
    >)
        ensures
            model::applies(
                model::thaw_collection(old(self)@, caller, collection_id),
                old(self)@,
                final(self)@,
                r,
            ),
            old(self)@.wf() ==> final(self)@.wf(),
            old(self)@.wf() && old(self)@.counts_agree() ==> final(self)@.counts_agree(),
    {
        let who = match caller {
            Some(who) => who,
            None => { return Err(Error::Unauthenticated); },
        };
        let details = match self.collections.get(&collection_id) {
            Some(details) => *details,
            None => { return Err(Error::NotFound); },
        };
        self.collections.insert(
            collection_id,
            CollectionDetails { owner: details.owner, amount: details.amount, is_frozen: false },
        );
        proof {
            if old(self)@.wf() {
                lemma_thaw_keeps_invariants(old(self)@, caller, collection_id);
            }
        }
        Ok(Event::CollectionThawed { collection: collection_id, who })
    }

    /// Registers collection `collection_id` for the caller.
    ///
    /// Refused with `Unauthenticated` for an unresolved caller and
    /// `AlreadyExists` where the collection is registered. Otherwise the
    /// collection is recorded as owned by the caller, with no items and not frozen.
    pub fn create_collection(&mut self, caller: Option<AccountId>, collection_id: CollectionId) -> (r: Result<
        Event,
        Error,
    >)
        ensures
            model::applies(
                model::create_collection(old(self)@, caller, collection_id),
                old(self)@,
                final(self)@,
                r,
            ),
            old(self)@.wf() ==> final(self)@.wf(),
            old(self)@.wf() && old(self)@.counts_agree() ==> final(self)@.counts_agree(),
    {
        let who = match caller {
            Some(who) => who,
            None => { return Err(Error::Unauthenticated); },
        };
        if self.collections.contains_key(&collection_id) {
            return Err(Error::AlreadyExists);
        }
        self.collections.insert(
            collection_id,
            CollectionDetails { owner: who, amount: 0, is_frozen: false },
        );
        proof {
            if old(self)@.wf() {
                lemma_create_keeps_invariants(old(self)@, caller, collection_id);
            }
        }
        Ok(Event::CollectionCreated { collection: collection_id, who })
    }

    /// Marks item `ntnft_id` of collection `collection_id` as discarded by the caller.
    ///
    /// Refused with `Unauthenticated` for an unresolved caller. Otherwise
    /// only the event is returned: the ledger is not consulted and does not
    /// change, whether or not the item exists. What discarding should do to
    /// an item is left open; a change of the ledger would be stated in the
    /// model function of the same name.
    pub fn discard_ntnft(&self, caller: Option<AccountId>, collection_id: CollectionId, ntnft_id: ItemId) -> (r:
        Result<Event, Error>)
        ensures
            model::applies(model::discard_ntnft(self@, caller, collection_id, ntnft_id), self@, self@, r),
    {
        match caller {
            Some(who) => Ok(Event::ItemDiscarded { collection: collection_id, item: ntnft_id, who }),
            None => Err(Error::Unauthenticated),
        }
    }

    /// Marks collection `collection_id` as created by force.
    ///
    /// Refused with `Unauthenticated` for an unresolved caller. Otherwise
    /// only the event is returned: the ledger is not consulted and does not
    /// change, and no collection is registered. What the override should do
    /// is left open; a change of the ledger would be stated in the model
    /// function of the same name.
    pub fn force_create(&self, caller: Option<AccountId>, collection_id: CollectionId) -> (r: Result<Event, Error>)
        ensures
            model::applies(model::force_create(self@, caller, collection_id), self@, self@, r),
    {
        match caller {
            Some(who) => Ok(Event::CollectionForceCreated { collection: collection_id, who }),
            None => Err(Error::Unauthenticated),
        }
    }

    /// Marks the status of collection `collection_id` as set by force.
    ///
    /// Refused with `Unauthenticated` for an unresolved caller. Otherwise
    /// only the event is returned: the ledger is not consulted and does not
    /// change. What the override should do is left open; a change of the
    /// ledger would be stated in the model function of the same name.
    pub fn force_collection_status(&self, caller: Option<AccountId>, collection_id: CollectionId) -> (r: Result<
        Event,
        Error,
    >)
        ensures
            model::applies(model::force_collection_status(self@, caller, collection_id), self@, self@, r),
    {
        match caller {
            Some(who) => Ok(Event::CollectionStatusForced { collection: collection_id, who }),
            None => Err(Error::Unauthenticated),
        }
    }
}

} // verus!
