use vstd::prelude::*;

use crate::msg::{Asset, InstantiateMsg};
use crate::network::{LinkKey, NetworkItem, OtherNetworkItem};
use crate::response::Response;
use crate::table::Table;
use crate::types::{AssetId, InterpreterOrigin, NetworkId, OriginV};

verus! {

/// Static configuration recorded at instantiation and read-only
/// afterwards.
#[derive(Clone, Debug, PartialEq, Eq)]
pub struct Config {
    pub network_id: NetworkId,
    pub admin: String,
    pub self_address: String,
    pub interpreter_code_id: u64,
    pub ibc_ics_20_sender: Option<String>,
}

/// A provisioned execution sandbox: created once per distinct origin,
/// never mutated afterwards, only read.
#[derive(Clone, Debug, PartialEq, Eq)]
pub struct Interpreter {
    pub address: String,
}

/// The router's whole persistent state: its configuration and the
/// keyed stores behind the asset registry, the interpreter directory
/// and the network topology.
pub struct Gateway {
    pub config: Config,
    pub assets: Table<AssetId, Asset>,
    pub interpreters: Table<InterpreterOrigin, Interpreter>,
    pub networks: Table<NetworkId, NetworkItem>,
    pub network_to_network: Table<LinkKey, OtherNetworkItem>,
    pub channel_to_network: Table<String, NetworkId>,
}

impl Gateway {
    /// Every store has pairwise-distinct keys.
    pub open spec fn wf(&self) -> bool {
        &&& self.assets.wf()
        &&& self.interpreters.wf()
        &&& self.networks.wf()
        &&& self.network_to_network.wf()
        &&& self.channel_to_network.wf()
    }

    /// The asset registry as a map from asset id to record.
    pub open spec fn assets_map(&self) -> Map<u128, Asset> {
        self.assets@
    }

    /// The interpreter directory as a map from origin value to
    /// provisioned sandbox.
    pub open spec fn interpreters_map(&self) -> Map<OriginV, Interpreter> {
        self.interpreters@
    }

    /// The network topology as a map from network id to metadata.
    pub open spec fn networks_map(&self) -> Map<u32, NetworkItem> {
        self.networks@
    }

    /// The stores other than the asset registry are unchanged.
    pub open spec fn same_but_assets(&self, other: &Gateway) -> bool {
        &&& self.config == other.config
        &&& self.interpreters@ == other.interpreters@
        &&& self.networks@ == other.networks@
        &&& self.network_to_network@ == other.network_to_network@
        &&& self.channel_to_network@ == other.channel_to_network@
    }

    /// The stores other than the interpreter directory are unchanged.
    pub open spec fn same_but_interpreters(&self, other: &Gateway) -> bool {
        &&& self.config == other.config
        &&& self.assets@ == other.assets@
        &&& self.networks@ == other.networks@
        &&& self.network_to_network@ == other.network_to_network@
        &&& self.channel_to_network@ == other.channel_to_network@
    }

    /// The stores other than the topology tables are unchanged.
    pub open spec fn same_but_topology(&self, other: &Gateway) -> bool {
        &&& self.config == other.config
        &&& self.assets@ == other.assets@
        &&& self.interpreters@ == other.interpreters@
    }

    /// Nothing is changed.
    pub open spec fn same_state(&self, other: &Gateway) -> bool {
        &&& self.same_but_assets(other)
        &&& self.assets@ == other.assets@
    }
}

/// Sets up a fresh gateway from its instantiation message.  The
/// response carries no deferred action: nothing is provisioned until
/// the first execute request asks for it.
pub fn instantiate(self_address: String, msg: InstantiateMsg) -> (r: (Gateway, Response))
    ensures
        r.0.wf(),
        r.0.config == (Config {
            network_id: msg.network_id,
            admin: msg.admin,
            self_address: self_address,
            interpreter_code_id: msg.interpreter_code_id,
            ibc_ics_20_sender: msg.ibc_ics_20_sender,
        }),
        r.0.assets_map() == Map::<u128, Asset>::empty(),
        r.0.interpreters_map() == Map::<OriginV, Interpreter>::empty(),
        r.0.networks_map() == Map::<u32, NetworkItem>::empty(),
        r.0.network_to_network@ == Map::<(u32, u32), OtherNetworkItem>::empty(),
        r.0.channel_to_network@ == Map::<Seq<char>, NetworkId>::empty(),
        r.1.events@.len() == 0,
        r.1.messages@.len() == 0,
{
    let config = Config {
        network_id: msg.network_id,
        admin: msg.admin,
        self_address: self_address,
        interpreter_code_id: msg.interpreter_code_id,
        ibc_ics_20_sender: msg.ibc_ics_20_sender,
    };
    let gateway = Gateway {
        config,
        assets: Table::new(),
        interpreters: Table::new(),
        networks: Table::new(),
        network_to_network: Table::new(),
        channel_to_network: Table::new(),
    };
    (gateway, Response::new())
}

} // verus!
