use crate::types::{AccountId, CollectionDetails, CollectionId, Error, Event, ItemDetails, ItemId};
use vstd::prelude::*;

verus! {

/// The ledger as mathematics: the five keyed relations it consists of.
pub struct State {
    /// Registered collections.
    pub collections: Map<CollectionId, CollectionDetails>,
    /// Live items, keyed by collection and item number.
    pub items: Map<(CollectionId, ItemId), ItemDetails>,
    /// The open offer, if any, to each account within each collection.
    pub proposed: Map<(CollectionId, AccountId), ItemId>,
    /// The accepted holding, if any, of each account within each collection.
    pub assignments: Map<(CollectionId, AccountId), ItemId>,
    /// The last withdrawn offer recorded against each account within each collection.
    pub canceled: Map<(CollectionId, AccountId), ItemId>,
}

/// What an operation does to a ledger: the next ledger and the event to
/// announce, or the reason for which the ledger stays as it is.
pub type Outcome = Result<(State, Event), Error>;

impl State {
    /// The ledger in which nothing is registered.
    pub open spec fn empty() -> State {
        State {
            collections: Map::empty(),
            items: Map::empty(),
            proposed: Map::empty(),
            assignments: Map::empty(),
            canceled: Map::empty(),
        }
    }

    /// The numbers of the live items of collection `c`.
    pub open spec fn item_ids(self, c: CollectionId) -> Set<ItemId> {
        Set::new(|i: ItemId| self.items.contains_key((c, i)))
    }

    /// The accounts that own an item of `c` whose offer is still open.
    pub open spec fn owners_of_proposed(self, c: CollectionId) -> Set<AccountId> {
        Set::new(
            |a: AccountId|
                exists|i: ItemId|
                    #![trigger self.items[(c, i)]]
                    self.items.contains_key((c, i)) && self.items[(c, i)].owner == a
                        && self.items[(c, i)].is_proposed(),
        )
    }

    /// The accounts that own an accepted item of `c`.
    pub open spec fn owners_of_accepted(self, c: CollectionId) -> Set<AccountId> {
        Set::new(
            |a: AccountId|
                exists|i: ItemId|
                    #![trigger self.items[(c, i)]]
                    self.items.contains_key((c, i)) && self.items[(c, i)].owner == a
                        && self.items[(c, i)].is_accepted,
        )
    }

    /// Every item belongs to a registered collection, and no item is
    /// accepted without having been offered.
    pub open spec fn wf(self) -> bool {
        &&& forall|k: (CollectionId, ItemId)| #[trigger]
            self.items.contains_key(k) ==> self.collections.contains_key(k.0)
        &&& forall|k: (CollectionId, ItemId)| #[trigger]
            self.items.contains_key(k) ==> (self.items[k].is_accepted ==> self.items[k].is_assigned)
    }

    /// The recorded amount of every collection is the number of its live items.
    pub open spec fn counts_agree(self) -> bool {
        forall|c: CollectionId| #[trigger]
            self.collections.contains_key(c) ==> self.item_ids(c).finite()
                && self.collections[c].amount == self.item_ids(c).len()
    }

    /// Within collection `c`, every open offer is to the owner of an offered
    /// item and every holding is that of the owner of an accepted item.
    pub open spec fn keyed_by_owners(self, c: CollectionId) -> bool {
        &&& forall|a: AccountId| #[trigger]
            self.proposed.contains_key((c, a)) ==> self.owners_of_proposed(c).contains(a)
        &&& forall|a: AccountId| #[trigger]
            self.assignments.contains_key((c, a)) ==> self.owners_of_accepted(c).contains(a)
    }

    /// The part of the ledger that is recorded under collection `c`.
    pub open spec fn within(self, c: CollectionId) -> State {
        State {
            collections: Map::new(
                |d: CollectionId| d == c && self.collections.contains_key(d),
                |d: CollectionId| self.collections[d],
            ),
            items: Map::new(
                |k: (CollectionId, ItemId)| k.0 == c && self.items.contains_key(k),
                |k: (CollectionId, ItemId)| self.items[k],
            ),
            proposed: Map::new(
                |k: (CollectionId, AccountId)| k.0 == c && self.proposed.contains_key(k),
                |k: (CollectionId, AccountId)| self.proposed[k],
            ),
            assignments: Map::new(
                |k: (CollectionId, AccountId)| k.0 == c && self.assignments.contains_key(k),
                |k: (CollectionId, AccountId)| self.assignments[k],
            ),
            canceled: Map::new(
                |k: (CollectionId, AccountId)| k.0 == c && self.canceled.contains_key(k),
                |k: (CollectionId, AccountId)| self.canceled[k],
            ),
        }
    }

    /// The part of the ledger that is recorded under collections other than `c`.
    pub open spec fn outside(self, c: CollectionId) -> State {
        State {
            collections: Map::new(
                |d: CollectionId| d != c && self.collections.contains_key(d),
                |d: CollectionId| self.collections[d],
            ),
            items: Map::new(
                |k: (CollectionId, ItemId)| k.0 != c && self.items.contains_key(k),
                |k: (CollectionId, ItemId)| self.items[k],
            ),
            proposed: Map::new(
                |k: (CollectionId, AccountId)| k.0 != c && self.proposed.contains_key(k),
                |k: (CollectionId, AccountId)| self.proposed[k],
            ),
            assignments: Map::new(
                |k: (CollectionId, AccountId)| k.0 != c && self.assignments.contains_key(k),
                |k: (CollectionId, AccountId)| self.assignments[k],
            ),
            canceled: Map::new(
                |k: (CollectionId, AccountId)| k.0 != c && self.canceled.contains_key(k),
                |k: (CollectionId, AccountId)| self.canceled[k],
            ),
        }
    }

    /// No item, open offer or accepted holding is recorded under collection `c`.
    pub open spec fn nothing_under(self, c: CollectionId) -> bool {
        &&& forall|i: ItemId| !self.items.contains_key((c, i))
        &&& forall|a: AccountId| !self.proposed.contains_key((c, a))
        &&& forall|a: AccountId| !self.assignments.contains_key((c, a))
    }
}

/// Whether ledger `after` and result `r` are what `outcome` prescribes for a
/// call that found the ledger as `before`.
pub open spec fn applies(outcome: Outcome, before: State, after: State, r: Result<Event, Error>) -> bool {
    match outcome {
        Ok((next, event)) => after == next && r == Ok::<Event, Error>(event),
        Err(e) => after == before && r == Err::<Event, Error>(e),
    }
}

/// Registering collection `c` for the caller.
pub open spec fn create_collection(s: State, caller: Option<AccountId>, c: CollectionId) -> Outcome {
    match caller {
        None => Err(Error::Unauthenticated),
        Some(who) => if s.collections.contains_key(c) {
            Err(Error::AlreadyExists)
        } else {
            Ok(
                (
                    State {
                        collections: s.collections.insert(
                            c,
                            CollectionDetails { owner: who, amount: 0, is_frozen: false },
                        ),
                        ..s
                    },
                    Event::CollectionCreated { collection: c, who },
                ),
            )
        },
    }
}

/// Removing collection `c` with its items, the open offers to the owners of
/// its offered items and the holdings of the owners of its accepted items.
pub open spec fn destroy_collection(s: State, caller: Option<AccountId>, c: CollectionId) -> Outcome {
    match caller {
        None => Err(Error::Unauthenticated),
        Some(who) => if !s.collections.contains_key(c) {
            Err(Error::NotFound)
        } else {
            Ok(
                (
                    State {
                        collections: s.collections.remove(c),
                        items: Map::new(
                            |k: (CollectionId, ItemId)| s.items.contains_key(k) && k.0 != c,
                            |k: (CollectionId, ItemId)| s.items[k],
                        ),
                        proposed: Map::new(
                            |k: (CollectionId, AccountId)|
                                s.proposed.contains_key(k) && !(k.0 == c
                                    && s.owners_of_proposed(c).contains(k.1)),
                            |k: (CollectionId, AccountId)| s.proposed[k],
                        ),
                        assignments: Map::new(
                            |k: (CollectionId, AccountId)|
                                s.assignments.contains_key(k) && !(k.0 == c
                                    && s.owners_of_accepted(c).contains(k.1)),
                            |k: (CollectionId, AccountId)| s.assignments[k],
                        ),
                        canceled: s.canceled,
                    },
                    Event::CollectionDestroyed { collection: c, who },
                ),
            )
        },
    }
}

/// Setting the frozen flag of collection `c` to `frozen`.
pub open spec fn set_frozen(s: State, c: CollectionId, frozen: bool) -> State {
    State {
        collections: s.collections.insert(
            c,
            CollectionDetails { is_frozen: frozen, ..s.collections[c] },
        ),
        ..s
    }
}

/// Freezing collection `c`.
pub open spec fn freeze_collection(s: State, caller: Option<AccountId>, c: CollectionId) -> Outcome {
    match caller {
        None => Err(Error::Unauthenticated),
        Some(who) => if !s.collections.contains_key(c) {
            Err(Error::NotFound)
        } else {
            Ok((set_frozen(s, c, true), Event::CollectionFrozen { collection: c, who }))
        },
    }
}

/// Thawing collection `c`.
pub open spec fn thaw_collection(s: State, caller: Option<AccountId>, c: CollectionId) -> Outcome {
    match caller {
        None => Err(Error::Unauthenticated),
        Some(who) => if !s.collections.contains_key(c) {
            Err(Error::NotFound)
        } else {
            Ok((set_frozen(s, c, false), Event::CollectionThawed { collection: c, who }))
        },
    }
}

/// Minting item `i` in collection `c` for the caller. An item already
/// recorded under `(c, i)` is replaced, whatever phase it was in.
pub open spec fn mint_ntnft(s: State, caller: Option<AccountId>, c: CollectionId, i: ItemId) -> Outcome {
    match caller {
        None => Err(Error::Unauthenticated),
        Some(who) => if !s.collections.contains_key(c) {
            Err(Error::NotFound)
        } else if s.collections[c].is_frozen {
            Err(Error::Frozen)
        } else if s.collections[c].amount == u32::MAX {
            Err(Error::ArithmeticOverflow)
        } else {
            Ok(
                (
                    State {
                        collections: s.collections.insert(
                            c,
                            CollectionDetails {
                                amount: (s.collections[c].amount + 1) as u32,
                                ..s.collections[c]
                            },
                        ),
                        items: s.items.insert((c, i), ItemDetails::minted_by(who)),
                        ..s
                    },
                    Event::ItemMinted { collection: c, item: i, who },
                ),
            )
        },
    }
}

/// Burning item `i` of collection `c`. The holding of the item's owner goes
/// with an accepted item, the open offer to the item's owner with an offered one.
pub open spec fn burn_ntnft(s: State, caller: Option<AccountId>, c: CollectionId, i: ItemId) -> Outcome {
    match caller {
        None => Err(Error::Unauthenticated),
        Some(who) => if !s.collections.contains_key(c) {
            Err(Error::NotFound)
        } else if s.collections[c].is_frozen {
            Err(Error::Frozen)
        } else if s.collections[c].amount == 0 {
            Err(Error::ArithmeticUnderflow)
        } else if !s.items.contains_key((c, i)) {
            Err(Error::NotFound)
        } else {
            let item = s.items[(c, i)];
            Ok(
                (
                    State {
                        collections: s.collections.insert(
                            c,
                            CollectionDetails {
                                amount: (s.collections[c].amount - 1) as u32,
                                ..s.collections[c]
                            },
                        ),
                        items: s.items.remove((c, i)),
                        proposed: if item.is_proposed() {
                            s.proposed.remove((c, item.owner))
                        } else {
                            s.proposed
                        },
                        assignments: if item.is_accepted {
                            s.assignments.remove((c, item.owner))
                        } else {
                            s.assignments
                        },
                        canceled: s.canceled,
                    },
                    Event::ItemBurned { collection: c, item: i, who },
                ),
            )
        },
    }
}

/// Offering item `i` of collection `c` to `target`. An earlier open offer to
/// `target` within `c` is overwritten.
pub open spec fn assign_ntnft(
    s: State,
    caller: Option<AccountId>,
    c: CollectionId,
    i: ItemId,
    target: AccountId,
) -> Outcome {
    match caller {
        None => Err(Error::Unauthenticated),
        Some(who) => if !s.items.contains_key((c, i)) {
            Err(Error::NotFound)
        } else if !s.items[(c, i)].is_unassigned() {
            Err(Error::InvalidState)
        } else {
            Ok(
                (
                    State {
                        items: s.items.insert(
                            (c, i),
                            ItemDetails { is_assigned: true, ..s.items[(c, i)] },
                        ),
                        proposed: s.proposed.insert((c, target), i),
                        ..s
                    },
                    Event::AssignmentProposed { who, collection: c, item: i, target },
                ),
            )
        },
    }
}

/// Whether account `who` may settle the offer of item `i` of collection `c`:
/// an offer to `who` is open within `c`, and the item is offered and not accepted.
pub open spec fn can_settle(s: State, who: AccountId, c: CollectionId, i: ItemId) -> bool {
    &&& s.proposed.contains_key((c, who))
    &&& s.items.contains_key((c, i))
    &&& s.items[(c, i)].is_proposed()
}

/// The caller accepting item `i` of collection `c`.
pub open spec fn accept_assignment(
    s: State,
    caller: Option<AccountId>,
    c: CollectionId,
    i: ItemId,
) -> Outcome {
    match caller {
        None => Err(Error::Unauthenticated),
        Some(who) => if !can_settle(s, who, c, i) {
            Err(Error::InvalidState)
        } else {
            Ok(
                (
                    State {
                        items: s.items.insert(
                            (c, i),
                            ItemDetails { is_accepted: true, ..s.items[(c, i)] },
                        ),
                        proposed: s.proposed.remove((c, who)),
                        assignments: s.assignments.insert((c, who), i),
                        ..s
                    },
                    Event::AssignmentAccepted { collection: c, item: i, who },
                ),
            )
        },
    }
}

/// The caller withdrawing the offer of item `i` of collection `c`; the
/// withdrawal is recorded against `target`.
pub open spec fn cancel_assignment(
    s: State,
    caller: Option<AccountId>,
    c: CollectionId,
    i: ItemId,
    target: AccountId,
) -> Outcome {
    match caller {
        None => Err(Error::Unauthenticated),
        Some(who) => if !can_settle(s, who, c, i) {
            Err(Error::InvalidState)
        } else {
            Ok(
                (
                    State {
                        items: s.items.insert(
                            (c, i),
                            ItemDetails { is_assigned: false, is_accepted: false, ..s.items[(c, i)] },
                        ),
                        proposed: s.proposed.remove((c, who)),
                        canceled: s.canceled.insert((c, target), i),
                        ..s
                    },
                    Event::AssignmentCanceled { who, collection: c, item: i, target },
                ),
            )
        },
    }
}

/// Discarding item `i` of collection `c`: a marker that leaves the ledger as it is.
pub open spec fn discard_ntnft(s: State, caller: Option<AccountId>, c: CollectionId, i: ItemId) -> Outcome {
    match caller {
        None => Err(Error::Unauthenticated),
        Some(who) => Ok((s, Event::ItemDiscarded { collection: c, item: i, who })),
    }
}

/// Forced creation of collection `c`: a marker that leaves the ledger as it is.
pub open spec fn force_create(s: State, caller: Option<AccountId>, c: CollectionId) -> Outcome {
    match caller {
        None => Err(Error::Unauthenticated),
        Some(who) => Ok((s, Event::CollectionForceCreated { collection: c, who })),
    }
}

/// Forced status of collection `c`: a marker that leaves the ledger as it is.
pub open spec fn force_collection_status(s: State, caller: Option<AccountId>, c: CollectionId) -> Outcome {
    match caller {
        None => Err(Error::Unauthenticated),
        Some(who) => Ok((s, Event::CollectionStatusForced { collection: c, who })),
    }
}

} // verus!
