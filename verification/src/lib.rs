//! A ledger of collections of non-transferable items and of the two-phase
//! assignment of those items to accounts.
//!
//! [`Pallet`] holds the ledger and offers its operations. Each operation is
//! specified by a function of the same name in [`model`], over the
//! mathematical [`model::State`] that a ledger stands for; [`laws`] proves
//! what holds across operations.
//!
//! Within a collection an account has one slot for an open offer and one for
//! an accepted holding. A second offer to the same account, or a second
//! acceptance by it, overwrites the slot; neither is refused. An item keeps
//! the account that minted it as its owner through every phase, and burning
//! an item or destroying its collection clears the slot of that owner, not
//! the slot of the account that the item was offered to.

pub mod laws;
pub mod model;
pub mod pair_map;
pub mod pallet;
pub mod types;

pub use pallet::Pallet;
pub use types::{AccountId, CollectionDetails, CollectionId, Error, Event, ItemDetails, ItemId};
