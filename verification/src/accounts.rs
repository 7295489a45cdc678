use vstd::prelude::*;

use crate::types::{AssetId, NetworkId};

verus! {

/// Kinds of events the escrow-account surface can generate.
#[derive(Clone, Copy, Debug, PartialEq, Eq)]
pub enum Action {
    /// Contract has been instantiated.
    Instantiated,
    /// Funds have been deposited to an account.
    Deposit,
}

/// Configuration the accounts surface is instantiated with.
#[derive(Clone, Debug, PartialEq, Eq)]
pub struct InstantiateMsg {
    /// Identifier of the network this contract is running on.
    pub network_id: NetworkId,
    /// Address of an escrow account running locally, whose local
    /// packets are read like cross-chain messages from `network_id`.
    pub local_escrow: Option<String>,
    /// Admins which are allowed to use the break-glass feature.
    pub admins: Vec<String>,
}

/// Migration carries nothing.
#[derive(Clone, Debug, PartialEq, Eq)]
pub struct MigrateMsg {}

/// An address on a remote chain.
#[derive(Clone, Debug, PartialEq, Eq)]
pub struct RemoteAddress {
    /// Network identifier of the chain.
    pub network_id: NetworkId,
    /// Chain-specific representation of the address on that chain.
    pub address: String,
}

/// Requests creation of a new account, named after the sender; fails
/// if the account already exists.
#[derive(Clone, Debug, PartialEq, Eq)]
pub struct CreateAccountRequest {
    /// Remote addresses which will have access to the account.
    pub recovery_addresses: Vec<RemoteAddress>,
}

/// Deletes an account, transferring remaining funds to a
/// beneficiary.
#[derive(Clone, Debug, PartialEq, Eq)]
pub struct DropAccountRequest {
    /// Account to transfer all remaining funds to.
    pub beneficiary_account: String,
}

/// Balance of a single asset.
#[derive(Clone, Debug, PartialEq, Eq)]
pub struct AssetBalance {
    /// Identifier of the asset.
    pub asset_id: AssetId,
    /// Amount the user can access at the moment.
    pub unlocked_amount: u128,
    /// Amount locked while a problem is being processed.
    pub locked_amount: u128,
}

/// Sends a new problem for the system to solve; may fail on
/// insufficient funds.
#[derive(Clone, Debug, PartialEq, Eq)]
pub struct SubmitProblemRequest {
    /// The problem to solve.
    pub problem: Vec<u8>,
}

/// Response to submission of a new problem.
#[derive(Clone, Debug, PartialEq, Eq)]
pub struct SubmitProblemResponse {
    /// Globally unique identifier of the problem.
    pub problem_id: u128,
}

/// Description of a change of a single asset balance.
#[derive(Clone, Debug, PartialEq, Eq)]
pub struct DepositAmount {
    /// Affected asset.
    pub asset_id: AssetId,
    /// Deposited amount.
    pub amount: u128,
}

/// Message from the escrow contract updating balances for an
/// account; the acknowledgement says whether the deposit was
/// accepted.
#[derive(Clone, Debug, PartialEq, Eq)]
pub struct DepositNotificationPacket {
    /// Identifier of the deposit assigned by the escrow contract.
    pub deposit_id: u128,
    /// The account whose balances are affected.
    pub account: String,
    /// Changes to balances.
    pub deposits: Vec<DepositAmount>,
}

/// Request which can be relayed to the accounts contract.
#[derive(Clone, Debug, PartialEq, Eq)]
pub enum RelayedRequest {
    DropAccount(DropAccountRequest),
    SubmitProblem(SubmitProblemRequest),
}

/// Message from the escrow contract relaying a user request.
#[derive(Clone, Debug, PartialEq, Eq)]
pub struct RelayedRequestPacket {
    /// Address of the user initiating the message on the local chain.
    pub address: String,
    /// Account to execute the request for.
    pub account: String,
    /// The request to relay.
    pub request: RelayedRequest,
}

/// A cross-chain packet the accounts surface accepts.
#[derive(Clone, Debug, PartialEq, Eq)]
pub enum Packet {
    /// Funds were deposited to an account.
    DepositNotification(DepositNotificationPacket),
    /// A user request relayed from the escrow contract's chain.
    RelayedRequest(RelayedRequestPacket),
}

/// The commands the accounts surface accepts.
#[derive(Clone, Debug, PartialEq, Eq)]
pub enum ExecuteMsg {
    CreateAccount(CreateAccountRequest),
    DropAccount(DropAccountRequest),
    SubmitProblem(SubmitProblemRequest),
    /// A normally cross-chain packet sent from a contract on the
    /// local chain.
    LocalPacket(Packet),
    BreakGlass,
}


} // verus!
