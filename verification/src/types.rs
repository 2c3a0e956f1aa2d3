//! The data model of the registry: kitties, their identifiers, the errors an
//! operation can report, and the notifications a successful operation emits.

use vstd::prelude::*;

verus! {

/// Account identifier of the host ledger.
pub type AccountId = u64;

/// Amount of the host ledger's currency.
pub type Balance = u128;

/// Identifier of a kitty: the 32-byte content hash of its record at creation.
pub type KittyId = [u8; 32];

/// Genetic payload of a kitty: fixed at creation, 16 bytes.
pub type Dna = [u8; 16];

/// Gender of a kitty, fixed at creation and independent of lineage.
#[derive(Clone, Copy, PartialEq, Eq, Structural, Debug)]
pub enum Gender {
    Male,
    Female,
}

/// The collectible record. The identifier is not a field: it is the content
/// hash of (dna, price, gender, owner) at creation time and is used as the
/// storage key.
#[derive(Clone, Copy, PartialEq, Eq, Debug)]
pub struct Kitty {
    pub dna: Dna,
    /// `None` means not for sale.
    pub price: Option<Balance>,
    pub gender: Gender,
    pub owner: AccountId,
}

/// Why an operation was rejected. Every error aborts the operation with no
/// partial mutation of the registry or of the ledger.
#[derive(Clone, Copy, PartialEq, Eq, Structural, Debug)]
pub enum Error {
    /// The global kitty count would overflow.
    CountForKittiesOverflow,
    /// The receiving account already holds the maximum number of kitties.
    ExceedMaxKittyOwned,
    /// A buyer may not buy a kitty it already owns.
    BuyerIsKittyOwner,
    /// A kitty may not be transferred to its current owner.
    TransferToSelf,
    /// A kitty with the same content hash already exists.
    KittyExists,
    /// No kitty with the given identifier exists.
    KittyNotExist,
    /// The caller does not own the kitty; also reported when the kitty does
    /// not exist, since ownership cannot be confirmed then.
    NotKittyOwner,
    /// The kitty has no price set.
    KittyNotForSale,
    /// The bid does not strictly exceed the asking price.
    KittyBidPriceTooLow,
    /// The buyer's free balance does not cover the bid.
    NotEnoughBalance,
    /// The deposit could not be reserved against the account's free balance.
    ReserveBalanceFailed,
}

/// Notification emitted by a successful operation.
#[derive(Clone, Copy, PartialEq, Eq, Debug)]
pub enum Event {
    /// A kitty was minted: (owner, new kitty).
    Created(AccountId, KittyId),
    /// A price was set or cleared: (owner, kitty, new price).
    PriceSet(AccountId, KittyId, Option<Balance>),
    /// Ownership moved: (previous owner, new owner, kitty).
    Transferred(AccountId, AccountId, KittyId),
    /// A purchase went through: (buyer, seller, kitty, price actually paid).
    Bought(AccountId, AccountId, KittyId, Balance),
}

/// What the external randomness source and execution context supplied for one
/// operation: two independently seeded 32-byte random values and the position
/// of the operation in the chain. The registry itself draws no entropy; the
/// caller hands the collaborators' outputs in.
#[derive(Clone, Copy, PartialEq, Eq, Debug)]
pub struct RandomContext {
    /// Output of the randomness source under the dna seed tag.
    pub dna_seed: [u8; 32],
    /// Output of the randomness source under the gender seed tag.
    pub gender_seed: [u8; 32],
    /// Index of the current transaction in its block (a default when absent).
    pub extrinsic_index: u32,
    /// Height of the current block.
    pub block_number: u64,
}

} // verus!
