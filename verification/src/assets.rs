use vstd::prelude::*;

use crate::auth::Admin;
use crate::codec::{dec_of, u128_to_dec};
use crate::error::ContractError;
use crate::events::make_event;
use crate::msg::{Asset, LookupResponse};
use crate::response::Response;
use crate::state::Gateway;
use crate::types::AssetId;

verus! {

/// Outcome of registering `id`: the updated registry on success,
/// `AlreadyRegistered` when the id is present.
pub open spec fn register_spec(m: Map<u128, Asset>, id: u128, asset: Asset) -> Result<
    Map<u128, Asset>,
    ContractError,
> {
    if m.contains_key(id) {
        Err(ContractError::AlreadyRegistered)
    } else {
        Ok(m.insert(id, asset))
    }
}

/// Outcome of unregistering `id`: the updated registry on success,
/// `UnsupportedAsset` when the id is absent.
pub open spec fn unregister_spec(m: Map<u128, Asset>, id: u128) -> Result<
    Map<u128, Asset>,
    ContractError,
> {
    if m.contains_key(id) {
        Ok(m.remove(id))
    } else {
        Err(ContractError::UnsupportedAsset)
    }
}

/// Outcome of looking `id` up: the record on success,
/// `UnsupportedAsset` when the id is absent.
pub open spec fn lookup_spec(m: Map<u128, Asset>, id: u128) -> Result<Asset, ContractError> {
    if m.contains_key(id) {
        Ok(m[id])
    } else {
        Err(ContractError::UnsupportedAsset)
    }
}

/// Adds a new asset to the registry; fails if the asset already
/// exists.  Admin-only: the capability is granted by the
/// authorization layer alone.
pub fn handle_register_asset(_auth: Admin, gw: &mut Gateway, asset_id: AssetId, reference: Asset)
    -> (r: Result<Response, ContractError>)
    requires
        old(gw).wf(),
    ensures
        final(gw).wf(),
        final(gw).same_but_assets(old(gw)),
        match register_spec(old(gw).assets_map(), asset_id@, reference) {
            Ok(m) => r is Ok && final(gw).assets_map() == m,
            Err(e) => r == Err::<Response, ContractError>(e)
                && final(gw).assets_map() == old(gw).assets_map(),
        },
        r matches Ok(resp) ==> {
            &&& resp.messages@.len() == 0
            &&& resp.events@.len() == 1
            &&& resp.events@[0].attributes@.len() == 3
            &&& resp.events@[0].attributes@[0].1@ == "register"@
            &&& resp.events@[0].attributes@[1].0@ == "asset_id"@
            &&& resp.events@[0].attributes@[1].1@ == dec_of(asset_id@ as nat)
            &&& resp.events@[0].attributes@[2].0@ == "denom"@
            &&& resp.events@[0].attributes@[2].1 == reference.denom_spec()
        },
{
    if gw.assets.contains(&asset_id) {
        return Err(ContractError::AlreadyRegistered);
    }
    let denom = reference.denom();
    gw.assets.set(asset_id, reference);
    let event = make_event("register")
        .add_attribute("asset_id", u128_to_dec(asset_id.0))
        .add_attribute("denom", denom);
    let mut events = Vec::new();
    events.push(event);
    Ok(Response { events, messages: Vec::new() })
}

/// Removes an existing asset from the registry; fails if the asset
/// does not exist.  Admin-only.
pub fn handle_unregister_asset(_auth: Admin, gw: &mut Gateway, asset_id: AssetId) -> (r: Result<
    Response,
    ContractError,
>)
    requires
        old(gw).wf(),
    ensures
        final(gw).wf(),
        final(gw).same_but_assets(old(gw)),
        match unregister_spec(old(gw).assets_map(), asset_id@) {
            Ok(m) => r is Ok && final(gw).assets_map() == m,
            Err(e) => r == Err::<Response, ContractError>(e)
                && final(gw).assets_map() == old(gw).assets_map(),
        },
        r matches Ok(resp) ==> {
            &&& resp.messages@.len() == 0
            &&& resp.events@.len() == 1
            &&& resp.events@[0].attributes@.len() == 2
            &&& resp.events@[0].attributes@[0].1@ == "unregister"@
            &&& resp.events@[0].attributes@[1].0@ == "asset_id"@
            &&& resp.events@[0].attributes@[1].1@ == dec_of(asset_id@ as nat)
        },
{
    if !gw.assets.contains(&asset_id) {
        return Err(ContractError::UnsupportedAsset);
    }
    gw.assets.remove(&asset_id);
    let event = make_event("unregister").add_attribute("asset_id", u128_to_dec(asset_id.0));
    let mut events = Vec::new();
    events.push(event);
    Ok(Response { events, messages: Vec::new() })
}

/// Fetches information about the given asset.  Pure read, callable
/// by anyone.
pub fn query_lookup(gw: &Gateway, asset_id: AssetId) -> (r: Result<LookupResponse, ContractError>)
    requires
        gw.wf(),
    ensures
        match lookup_spec(gw.assets_map(), asset_id@) {
            Ok(asset) => r matches Ok(resp) && resp.reference == asset,
            Err(e) => r == Err::<LookupResponse, ContractError>(e),
        },
{
    match gw.assets.get(&asset_id) {
        Some(asset) => Ok(LookupResponse { reference: asset.clone() }),
        None => Err(ContractError::UnsupportedAsset),
    }
}

/// What was registered can be looked up; registering twice fails the
/// second time; what was unregistered cannot be looked up.
pub proof fn lemma_registry_laws(m: Map<u128, Asset>, id: u128, asset: Asset)
    ensures
        !m.contains_key(id) ==> {
            let m1 = register_spec(m, id, asset)->Ok_0;
            &&& register_spec(m, id, asset) is Ok
            &&& lookup_spec(m1, id) == Ok::<Asset, ContractError>(asset)
            &&& register_spec(m1, id, asset) == Err::<Map<u128, Asset>, ContractError>(
                ContractError::AlreadyRegistered,
            )
            &&& unregister_spec(m1, id) is Ok
            &&& lookup_spec(unregister_spec(m1, id)->Ok_0, id) == Err::<Asset, ContractError>(
                ContractError::UnsupportedAsset,
            )
        },
{
    if !m.contains_key(id) {
        let m1 = m.insert(id, asset);
        assert(m1.contains_key(id) && m1[id] == asset);
        assert(!m1.remove(id).contains_key(id));
    }
}

} // verus!
