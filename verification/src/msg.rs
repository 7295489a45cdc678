use vstd::prelude::*;

use crate::network::{NetworkItem, OtherNetworkItem};
use crate::types::{AssetId, CallOrigin, Funds, InterpreterOrigin, NetworkId};

verus! {

/// Local representation of an asset: moved on the chain's own ledger,
/// or through a separate token contract.
#[derive(Debug, PartialEq, Eq)]
pub enum AssetReference {
    Native { denom: String },
    Virtual { cw20_address: String },
}

impl Clone for AssetReference {
    /// Clones preserve the value.
    fn clone(&self) -> (r: Self)
        ensures
            r == *self,
    {
        match self {
            AssetReference::Native { denom } => AssetReference::Native { denom: denom.clone() },
            AssetReference::Virtual { cw20_address } => AssetReference::Virtual {
                cw20_address: cw20_address.clone(),
            },
        }
    }
}

/// Registry record for one asset id.
#[derive(Debug, PartialEq, Eq)]
pub struct Asset {
    pub network_id: NetworkId,
    pub local: AssetReference,
}

impl Clone for Asset {
    /// Clones preserve the value.
    fn clone(&self) -> (r: Self)
        ensures
            r == *self,
    {
        Asset { network_id: self.network_id, local: self.local.clone() }
    }
}

impl Asset {
    /// The denomination or contract address the record points at.
    pub open spec fn denom_spec(&self) -> String {
        match self.local {
            AssetReference::Native { denom } => denom,
            AssetReference::Virtual { cw20_address } => cw20_address,
        }
    }

    /// The denomination or contract address, as
    /// [`Self::denom_spec`] states it.
    pub fn denom(&self) -> (r: String)
        ensures
            r == self.denom_spec(),
    {
        match &self.local {
            AssetReference::Native { denom } => denom.clone(),
            AssetReference::Virtual { cw20_address } => cw20_address.clone(),
        }
    }
}

/// Answer to an asset lookup.
#[derive(Clone, Debug, PartialEq, Eq)]
pub struct LookupResponse {
    pub reference: Asset,
}

/// A program execution request: the caller-chosen salt, the opaque
/// program, and the assets the program consumes.
#[derive(Clone, Debug, PartialEq, Eq)]
pub struct ExecuteProgramMsg {
    pub salt: Vec<u8>,
    pub program: Vec<u8>,
    pub assets: Funds,
}

/// Admin request to bind an asset id to a local representation.
#[derive(Clone, Debug, PartialEq, Eq)]
pub struct RegisterAssetMsg {
    pub id: AssetId,
    pub asset: Asset,
}

/// What an interpreter asks the router to forward over a bridge.
#[derive(Clone, Debug, PartialEq, Eq)]
pub struct BridgeMsg {
    pub assets: Funds,
    pub payload: Vec<u8>,
}

/// Request to forward a message over a bridge on behalf of the
/// interpreter provisioned for `interpreter_origin`.
#[derive(Clone, Debug, PartialEq, Eq)]
pub struct BridgeForwardMsg {
    pub interpreter_origin: InterpreterOrigin,
    pub msg: BridgeMsg,
}

/// An inbound cross-chain packet delivered by a trusted hook.
#[derive(Clone, Debug, PartialEq, Eq)]
pub struct Ics20MessageHookMsg {
    pub from_network_id: NetworkId,
    pub payload: Vec<u8>,
}

/// Admin request to bind the channel metadata for an ordered pair of
/// networks.
#[derive(Clone, Debug, PartialEq, Eq)]
pub struct ForceNetworkToNetworkMsg {
    pub from: NetworkId,
    pub to: NetworkId,
    pub other: OtherNetworkItem,
}

/// The commands the router accepts.
#[derive(Clone, Debug, PartialEq, Eq)]
pub enum ExecuteMsg {
    IbcSetNetworkChannel { to: NetworkId, channel_id: String },
    ExecuteProgram { execute_program: ExecuteProgramMsg, tip: String },
    ExecuteProgramPrivileged { call_origin: CallOrigin, execute_program: ExecuteProgramMsg, tip: String },
    BridgeForward(BridgeForwardMsg),
    RegisterAsset(RegisterAssetMsg),
    UnregisterAsset { asset_id: AssetId },
    Ics20MessageHook(Ics20MessageHookMsg),
    ForceNetwork(NetworkItem),
    ForceNetworkToNetwork(ForceNetworkToNetworkMsg),
}

/// The queries the router answers.
#[derive(Clone, Debug, PartialEq, Eq)]
pub enum QueryMsg {
    LookupAsset { asset_id: AssetId },
}

/// Configuration the router is instantiated with.
#[derive(Clone, Debug, PartialEq, Eq)]
pub struct InstantiateMsg {
    pub interpreter_code_id: u64,
    pub network_id: NetworkId,
    pub admin: String,
    pub ibc_ics_20_sender: Option<String>,
}

} // verus!
