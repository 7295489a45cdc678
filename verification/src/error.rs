use vstd::prelude::*;

verus! {

/// Errors the router's operations can return.  Every public operation
/// returns a `Result`; a failing handler leaves the gateway state
/// untouched.
#[derive(Clone, Debug, PartialEq, Eq)]
pub enum ContractError {
    /// Registering an asset id that is already present.
    AlreadyRegistered,
    /// Looking up or unregistering an asset id that is absent.
    UnsupportedAsset,
    /// A native attachment does not cover a declared amount.
    InsufficientFunds,
    /// The caller does not match the principal a handler requires.
    Unauthorized,
    /// An expected record or reply field is missing; the detail names it.
    NotFound(String),
    /// A failure at the host boundary, such as a malformed address.
    HostError(String),
}

} // verus!
