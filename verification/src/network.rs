use vstd::prelude::*;

use crate::auth::Admin;
use crate::codec::{dec_of, u128_to_dec};
use crate::error::ContractError;
use crate::events::make_event;
use crate::msg::ForceNetworkToNetworkMsg;
use crate::response::Response;
use crate::state::Gateway;
use crate::table::TableKey;
use crate::types::NetworkId;

verus! {

/// A value-preserving copy of an optional string.
fn clone_opt_string(v: &Option<String>) -> (r: Option<String>)
    ensures
        r == *v,
{
    match v {
        Some(s) => Some(s.clone()),
        None => None,
    }
}

/// Admin-managed description of one network in the topology.
#[derive(Debug, PartialEq, Eq)]
pub struct NetworkItem {
    pub id: NetworkId,
    /// Channel or relay metadata recorded for the network, if any.
    pub relay_channel: Option<String>,
}

impl Clone for NetworkItem {
    /// Clones preserve the value.
    fn clone(&self) -> (r: Self)
        ensures
            r == *self,
    {
        NetworkItem { id: self.id, relay_channel: clone_opt_string(&self.relay_channel) }
    }
}

/// An IBC channel binding.
#[derive(Debug, PartialEq, Eq)]
pub struct ChannelInfo {
    pub id: String,
}

impl Clone for ChannelInfo {
    /// Clones preserve the value.
    fn clone(&self) -> (r: Self)
        ensures
            r == *self,
    {
        ChannelInfo { id: self.id.clone() }
    }
}

/// The channel binding recorded for an ordered pair of networks.
#[derive(Debug, PartialEq, Eq)]
pub struct OtherNetworkItem {
    pub xcvm_channel: Option<ChannelInfo>,
}

impl Clone for OtherNetworkItem {
    /// Clones preserve the value.
    fn clone(&self) -> (r: Self)
        ensures
            r == *self,
    {
        match &self.xcvm_channel {
            Some(info) => OtherNetworkItem { xcvm_channel: Some(info.clone()) },
            None => OtherNetworkItem { xcvm_channel: None },
        }
    }
}

/// A network plus the connection from the local network to it.
#[derive(Debug, PartialEq, Eq)]
pub struct OtherNetwork {
    pub network: NetworkItem,
    pub connection: OtherNetworkItem,
}

/// Ordered pair of networks keying a channel binding.
#[derive(Clone, Copy, Debug, PartialEq, Eq, Structural)]
pub struct LinkKey {
    pub from: NetworkId,
    pub to: NetworkId,
}

impl View for LinkKey {
    type V = (u32, u32);

    open spec fn view(&self) -> (u32, u32) {
        (self.from.0, self.to.0)
    }
}

impl TableKey for LinkKey {
    fn key_eq(&self, other: &Self) -> (r: bool) {
        self.from.0 == other.from.0 && self.to.0 == other.to.0
    }
}

/// Loads the topology entry recorded for the local network; fails
/// when none was forced yet.
pub fn load_this(gw: &Gateway) -> (r: Result<NetworkItem, ContractError>)
    requires
        gw.wf(),
    ensures
        match r {
            Ok(item) => gw.networks_map().contains_key(gw.config.network_id@)
                && item == gw.networks_map()[gw.config.network_id@],
            Err(e) => !gw.networks_map().contains_key(gw.config.network_id@) && e is NotFound,
        },
{
    match gw.networks.get(&gw.config.network_id) {
        Some(item) => Ok(item.clone()),
        None => Err(ContractError::NotFound("this network is not registered".to_owned())),
    }
}

/// Loads the topology entry recorded for the requested network
/// together with the channel binding recorded for the link from the
/// local network to it; fails when either is absent.
pub fn load_other(gw: &Gateway, other: NetworkId) -> (r: Result<OtherNetwork, ContractError>)
    requires
        gw.wf(),
    ensures
        ({
            let link = (gw.config.network_id@, other@);
            match r {
                Ok(found) => gw.networks_map().contains_key(other@)
                    && found.network == gw.networks_map()[other@]
                    && gw.network_to_network@.contains_key(link)
                    && found.connection == gw.network_to_network@[link],
                Err(e) => (!gw.networks_map().contains_key(other@)
                    || !gw.network_to_network@.contains_key(link)) && e is NotFound,
            }
        }),
{
    let network = match gw.networks.get(&other) {
        Some(item) => item.clone(),
        None => {
            return Err(ContractError::NotFound("the network is not registered".to_owned()));
        },
    };
    let key = LinkKey { from: gw.config.network_id, to: other };
    match gw.network_to_network.get(&key) {
        Some(connection) => Ok(OtherNetwork { network, connection: connection.clone() }),
        None => Err(ContractError::NotFound("network to network link is not registered".to_owned())),
    }
}

/// Records the channel binding for an ordered pair of networks, and
/// the reverse channel-to-network index when a channel is named.
/// Admin-only.
pub fn force_network_to_network(_auth: Admin, gw: &mut Gateway, msg: ForceNetworkToNetworkMsg)
    -> (r: Result<Response, ContractError>)
    requires
        old(gw).wf(),
    ensures
        final(gw).wf(),
        final(gw).same_but_topology(old(gw)),
        final(gw).networks@ == old(gw).networks@,
        final(gw).network_to_network@ == old(gw).network_to_network@.insert(
            (msg.from@, msg.to@),
            msg.other,
        ),
        final(gw).channel_to_network@ == match msg.other.xcvm_channel {
            Some(info) => old(gw).channel_to_network@.insert(info.id@, msg.to),
            None => old(gw).channel_to_network@,
        },
        r matches Ok(resp) && resp.messages@.len() == 0 && resp.events@.len() == 1
            && resp.events@[0].attributes@.len() == 2
            && resp.events@[0].attributes@[0].1@ == "network_to_network.forced"@
            && resp.events@[0].attributes@[1].0@ == "to"@
            && resp.events@[0].attributes@[1].1@ == dec_of(msg.to@ as nat),
{
    let key = LinkKey { from: msg.from, to: msg.to };
    let channel = match &msg.other.xcvm_channel {
        Some(info) => Some(info.id.clone()),
        None => None,
    };
    gw.network_to_network.set(key, msg.other);
    if let Some(id) = channel {
        gw.channel_to_network.set(id, msg.to);
    }
    let event = make_event("network_to_network.forced")
        .add_attribute("to", u128_to_dec(msg.to.0 as u128));
    let mut events = Vec::new();
    events.push(event);
    Ok(Response { events, messages: Vec::new() })
}

/// Records the topology entry for one network.  Admin-only.
pub fn force_network(_auth: Admin, gw: &mut Gateway, msg: NetworkItem) -> (r: Result<
    Response,
    ContractError,
>)
    requires
        old(gw).wf(),
    ensures
        final(gw).wf(),
        final(gw).same_but_topology(old(gw)),
        final(gw).networks@ == old(gw).networks@.insert(msg.id@, msg),
        final(gw).network_to_network@ == old(gw).network_to_network@,
        final(gw).channel_to_network@ == old(gw).channel_to_network@,
        r matches Ok(resp) && resp.messages@.len() == 0 && resp.events@.len() == 1
            && resp.events@[0].attributes@.len() == 2
            && resp.events@[0].attributes@[0].1@ == "network.forced"@
            && resp.events@[0].attributes@[1].0@ == "id"@
            && resp.events@[0].attributes@[1].1@ == dec_of(msg.id@ as nat),
{
    let id = msg.id;
    let attr = u128_to_dec(msg.id.0 as u128);
    gw.networks.set(id, msg);
    let event = make_event("network.forced").add_attribute("id", attr);
    let mut events = Vec::new();
    events.push(event);
    Ok(Response { events, messages: Vec::new() })
}

/// Binds an IBC channel to the network it leads to.  Admin-only.
pub fn handle_ibc_set_network_channel(_auth: Admin, gw: &mut Gateway, to: NetworkId, channel_id: String)
    -> (r: Result<Response, ContractError>)
    requires
        old(gw).wf(),
    ensures
        final(gw).wf(),
        final(gw).same_but_topology(old(gw)),
        final(gw).networks@ == old(gw).networks@,
        final(gw).network_to_network@ == old(gw).network_to_network@,
        final(gw).channel_to_network@ == old(gw).channel_to_network@.insert(channel_id@, to),
        r matches Ok(resp) && resp.messages@.len() == 0 && resp.events@.len() == 1
            && resp.events@[0].attributes@.len() == 2
            && resp.events@[0].attributes@[0].1@ == "ibc.channel.set"@
            && resp.events@[0].attributes@[1].0@ == "to"@
            && resp.events@[0].attributes@[1].1@ == dec_of(to@ as nat),
{
    gw.channel_to_network.set(channel_id, to);
    let event = make_event("ibc.channel.set").add_attribute("to", u128_to_dec(to.0 as u128));
    let mut events = Vec::new();
    events.push(event);
    Ok(Response { events, messages: Vec::new() })
}

} // verus!
