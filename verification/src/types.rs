use vstd::prelude::*;

verus! {

/// Handle naming a collection.
pub type CollectionId = u64;

/// Number of an item inside its collection.
pub type ItemId = u64;

/// Identity of an account.
pub type AccountId = u64;

/// What the registry records about one collection.
#[derive(Clone, Copy, Debug, PartialEq, Eq, Structural)]
pub struct CollectionDetails {
    /// The account that created the collection.
    pub owner: AccountId,
    /// How many items of the collection are alive.
    pub amount: u32,
    /// While set, items can neither be minted nor burned.
    pub is_frozen: bool,
}

/// What the ledger records about one item.
#[derive(Clone, Copy, Debug, PartialEq, Eq, Structural)]
pub struct ItemDetails {
    /// The account that minted the item.
    pub owner: AccountId,
    /// Set once the item has been offered to an account.
    pub is_assigned: bool,
    /// Set once the offer has been accepted.
    pub is_accepted: bool,
}

impl Default for ItemDetails {
    /// The record of an item that account zero owns and that is offered to nobody.
    fn default() -> (r: ItemDetails)
        ensures
            r == ItemDetails::minted_by(0),
    {
        ItemDetails { owner: 0, is_assigned: false, is_accepted: false }
    }
}

impl ItemDetails {
    /// A freshly minted item: owned by `owner` and offered to nobody.
    pub open spec fn minted_by(owner: AccountId) -> ItemDetails {
        ItemDetails { owner, is_assigned: false, is_accepted: false }
    }

    /// The item has been offered to nobody.
    pub open spec fn is_unassigned(self) -> bool {
        !self.is_assigned && !self.is_accepted
    }

    /// The item has been offered and the offer is still open.
    pub open spec fn is_proposed(self) -> bool {
        self.is_assigned && !self.is_accepted
    }
}

/// A change of the ledger that observers are told about.
#[derive(Clone, Copy, Debug, PartialEq, Eq, Structural)]
pub enum Event {
    /// `who` registered `collection`.
    CollectionCreated { collection: CollectionId, who: AccountId },
    /// `who` offered `item` of `collection` to `target`.
    AssignmentProposed { who: AccountId, collection: CollectionId, item: ItemId, target: AccountId },
    /// `who` accepted `item` of `collection`.
    AssignmentAccepted { collection: CollectionId, item: ItemId, who: AccountId },
    /// `who` withdrew the offer of `item` of `collection`, recorded against `target`.
    AssignmentCanceled { who: AccountId, collection: CollectionId, item: ItemId, target: AccountId },
    /// `who` removed `collection` and everything in it.
    CollectionDestroyed { collection: CollectionId, who: AccountId },
    /// `who` minted `item` in `collection`.
    ItemMinted { collection: CollectionId, item: ItemId, who: AccountId },
    /// `who` burned `item` of `collection`.
    ItemBurned { collection: CollectionId, item: ItemId, who: AccountId },
    /// `who` froze `collection`.
    CollectionFrozen { collection: CollectionId, who: AccountId },
    /// `who` thawed `collection`.
    CollectionThawed { collection: CollectionId, who: AccountId },
    /// `who` discarded `item` of `collection`.
    ItemDiscarded { collection: CollectionId, item: ItemId, who: AccountId },
    /// Governance, acting as `who`, forced the creation of `collection`.
    CollectionForceCreated { collection: CollectionId, who: AccountId },
    /// Governance, acting as `who`, forced the status of `collection`.
    CollectionStatusForced { collection: CollectionId, who: AccountId },
}

/// Why an operation was rejected.
#[derive(Clone, Copy, Debug, PartialEq, Eq, Structural)]
pub enum Error {
    /// The caller could not be resolved to an account.
    Unauthenticated,
    /// The collection or item named by the request does not exist.
    NotFound,
    /// The collection is already registered.
    AlreadyExists,
    /// The item or the offer is not in the phase the operation needs.
    InvalidState,
    /// The collection is frozen.
    Frozen,
    /// The item count of the collection cannot grow any further.
    ArithmeticOverflow,
    /// The item count of the collection is already zero.
    ArithmeticUnderflow,
}

} // verus!
