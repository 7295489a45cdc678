use xcvm_gateway::error::ContractError;
use xcvm_gateway::execute::{execute, query};
use xcvm_gateway::msg::{Asset, AssetReference, ExecuteMsg, InstantiateMsg, LookupResponse,
    QueryMsg, RegisterAssetMsg};
use xcvm_gateway::state::{instantiate, Gateway};
use xcvm_gateway::types::{AssetId, MessageInfo, NetworkId};

fn setup() -> (Gateway, MessageInfo) {
    let sender = "sender";
    let msg = InstantiateMsg {
        interpreter_code_id: 0,
        network_id: NetworkId(1),
        admin: sender.to_string(),
        ibc_ics_20_sender: None,
    };
    let (gw, _resp) = instantiate("gateway".to_string(), msg);
    let info = MessageInfo { sender: sender.to_string(), funds: vec![] };
    (gw, info)
}

fn virtual_asset(addr: &str) -> Asset {
    Asset {
        network_id: NetworkId(1),
        local: AssetReference::Virtual { cw20_address: addr.to_string() },
    }
}

#[test]
fn proper_instantiation() {
    let sender = "sender";
    let msg = InstantiateMsg {
        interpreter_code_id: 0,
        network_id: NetworkId(1),
        admin: sender.to_string(),
        ibc_ics_20_sender: None,
    };
    let (_gw, resp) = instantiate("gateway".to_string(), msg);
    assert_eq!(0, resp.messages.len());
}

#[test]
fn register_unregister_assets() {
    let (mut gw, info) = setup();

    let addr1 = virtual_asset("addr1");
    let addr2 = virtual_asset("addr2");
    let addr3 = virtual_asset("addr3");
    let addr4 = virtual_asset("addr4");

    execute(
        &mut gw,
        info.clone(),
        ExecuteMsg::RegisterAsset(RegisterAssetMsg { id: AssetId(1), asset: addr1.clone() }),
    )
    .unwrap();
    execute(
        &mut gw,
        info.clone(),
        ExecuteMsg::RegisterAsset(RegisterAssetMsg { id: AssetId(2), asset: addr2.clone() }),
    )
    .unwrap();

    assert_eq!(
        xcvm_gateway::assets::query_lookup(&gw, AssetId(1)).unwrap().reference,
        addr1
    );
    assert_eq!(
        xcvm_gateway::assets::query_lookup(&gw, AssetId(2)).unwrap().reference,
        addr2
    );

    execute(&mut gw, info.clone(), ExecuteMsg::UnregisterAsset { asset_id: AssetId(1) }).unwrap();
    execute(&mut gw, info.clone(), ExecuteMsg::UnregisterAsset { asset_id: AssetId(2) }).unwrap();

    execute(
        &mut gw,
        info.clone(),
        ExecuteMsg::RegisterAsset(RegisterAssetMsg { id: AssetId(3), asset: addr3.clone() }),
    )
    .unwrap();
    execute(
        &mut gw,
        info.clone(),
        ExecuteMsg::RegisterAsset(RegisterAssetMsg { id: AssetId(4), asset: addr4.clone() }),
    )
    .unwrap();

    // Make sure that unregistering removed the previous elements.
    assert!(xcvm_gateway::assets::query_lookup(&gw, AssetId(1)).is_err());
    assert!(xcvm_gateway::assets::query_lookup(&gw, AssetId(2)).is_err());
    assert_eq!(
        xcvm_gateway::assets::query_lookup(&gw, AssetId(3)).unwrap().reference,
        addr3
    );
    assert_eq!(
        xcvm_gateway::assets::query_lookup(&gw, AssetId(4)).unwrap().reference,
        addr4
    );

    // Finally make sure that there are two elements in the assets store.
    assert_eq!(gw.assets.len(), 2);
}

#[test]
fn query_assets() {
    let (mut gw, info) = setup();

    let addr1 = virtual_asset("addr1");
    let asset_id = AssetId(1);
    execute(
        &mut gw,
        info.clone(),
        ExecuteMsg::RegisterAsset(RegisterAssetMsg { id: asset_id, asset: addr1.clone() }),
    )
    .unwrap();

    let res: LookupResponse = query(&gw, QueryMsg::LookupAsset { asset_id }).unwrap();
    assert_eq!(res, LookupResponse { reference: addr1 });

    // This should fail since the asset does not exist.
    assert!(query(&gw, QueryMsg::LookupAsset { asset_id: AssetId(2) }).is_err());
}

#[test]
fn native_asset_register_lookup_cycle() {
    // Register asset 5 as native denom "upica"; lookup returns it;
    // unregister; lookup now fails.
    let (mut gw, info) = setup();
    let asset = Asset {
        network_id: NetworkId(1),
        local: AssetReference::Native { denom: "upica".to_string() },
    };
    execute(
        &mut gw,
        info.clone(),
        ExecuteMsg::RegisterAsset(RegisterAssetMsg { id: AssetId(5), asset: asset.clone() }),
    )
    .unwrap();
    assert_eq!(xcvm_gateway::assets::query_lookup(&gw, AssetId(5)).unwrap().reference, asset);
    execute(&mut gw, info.clone(), ExecuteMsg::UnregisterAsset { asset_id: AssetId(5) }).unwrap();
    assert_eq!(
        xcvm_gateway::assets::query_lookup(&gw, AssetId(5)),
        Err(ContractError::UnsupportedAsset)
    );
}

#[test]
fn double_register_fails() {
    let (mut gw, info) = setup();
    let asset = virtual_asset("addr1");
    execute(
        &mut gw,
        info.clone(),
        ExecuteMsg::RegisterAsset(RegisterAssetMsg { id: AssetId(7), asset: asset.clone() }),
    )
    .unwrap();
    let second = execute(
        &mut gw,
        info.clone(),
        ExecuteMsg::RegisterAsset(RegisterAssetMsg { id: AssetId(7), asset }),
    );
    assert_eq!(second, Err(ContractError::AlreadyRegistered));
}

#[test]
fn unregister_missing_fails() {
    let (mut gw, info) = setup();
    let r = execute(&mut gw, info, ExecuteMsg::UnregisterAsset { asset_id: AssetId(9) });
    assert_eq!(r, Err(ContractError::UnsupportedAsset));
}

#[test]
fn register_requires_admin() {
    let (mut gw, _info) = setup();
    let outsider = MessageInfo { sender: "mallory".to_string(), funds: vec![] };
    let r = execute(
        &mut gw,
        outsider,
        ExecuteMsg::RegisterAsset(RegisterAssetMsg { id: AssetId(1), asset: virtual_asset("a") }),
    );
    assert_eq!(r, Err(ContractError::Unauthorized));
}
