use xcvm_gateway::codec::{from_hex, scan_dec, to_hex, u128_to_dec};
use xcvm_gateway::events::make_event;
use xcvm_gateway::network::{force_network, ChannelInfo, NetworkItem, OtherNetworkItem};
use xcvm_gateway::auth::Admin;
use xcvm_gateway::msg::{ExecuteMsg, ForceNetworkToNetworkMsg, InstantiateMsg};
use xcvm_gateway::execute::execute;
use xcvm_gateway::origin::{decode_origin, encode_origin};
use xcvm_gateway::state::instantiate;
use xcvm_gateway::types::{InterpreterOrigin, MessageInfo, NetworkId, UserOrigin};

#[test]
fn decimal_rendering_is_exact() {
    assert_eq!(u128_to_dec(0), "0");
    assert_eq!(u128_to_dec(7), "7");
    assert_eq!(u128_to_dec(12345), "12345");
    assert_eq!(u128_to_dec(340282366920938463463374607431768211455), // largest amount
        "340282366920938463463374607431768211455");
}

#[test]
fn digit_scanning_is_maximal_and_bounded() {
    assert_eq!(scan_dec("123,", 0, 4294967295), Some((123, 3)));
    assert_eq!(scan_dec("abc", 0, 4294967295), None);
    assert_eq!(scan_dec("999", 0, 255), None);
}

#[test]
fn hex_round_trips() {
    let bytes = vec![0u8, 1, 15, 16, 171, 255];
    let hex = to_hex(&bytes);
    assert_eq!(hex, "00010f10abff");
    assert_eq!(from_hex(hex.as_str(), 0, hex.len()), Some(bytes));
    assert_eq!(from_hex("0g", 0, 2), None);
    assert_eq!(from_hex("abc", 0, 3), None);
}

#[test]
fn origin_encoding_round_trips() {
    let origin = InterpreterOrigin {
        user_origin: UserOrigin { network_id: NetworkId(1), user_id: "alice,with,commas".to_string() },
        salt: vec![0, 255, 7],
    };
    let encoded = encode_origin(&origin);
    assert_eq!(encoded, "1,00ff07,alice,with,commas");
    assert_eq!(decode_origin(encoded.as_str()), Some(origin));
}

#[test]
fn malformed_origins_are_rejected() {
    assert_eq!(decode_origin(""), None);
    assert_eq!(decode_origin("x,00,alice"), None);
    assert_eq!(decode_origin("01,00,alice"), None);
    assert_eq!(decode_origin("1,0g,alice"), None);
    assert_eq!(decode_origin("1,00"), None);
}

#[test]
fn events_carry_the_router_prefix() {
    let event = make_event("register");
    assert_eq!(event.ty, "xcvm.gateway");
    assert_eq!(event.attributes, vec![("action".to_string(), "register".to_string())]);
}

#[test]
fn forced_topology_is_readable_back() {
    let msg = InstantiateMsg {
        interpreter_code_id: 0,
        network_id: NetworkId(1),
        admin: "admin".to_string(),
        ibc_ics_20_sender: None,
    };
    let (mut gw, _resp) = instantiate("gateway".to_string(), msg);
    let admin_info = MessageInfo { sender: "admin".to_string(), funds: vec![] };

    let this_item = NetworkItem { id: NetworkId(1), relay_channel: None };
    execute(&mut gw, admin_info.clone(), ExecuteMsg::ForceNetwork(this_item.clone())).unwrap();
    execute(
        &mut gw,
        admin_info.clone(),
        ExecuteMsg::ForceNetworkToNetwork(ForceNetworkToNetworkMsg {
            from: NetworkId(1),
            to: NetworkId(1),
            other: OtherNetworkItem {
                xcvm_channel: Some(ChannelInfo { id: "channel-0".to_string() }),
            },
        }),
    )
    .unwrap();

    let this = xcvm_gateway::network::load_this(&gw).unwrap();
    assert_eq!(this, this_item);
    let other = xcvm_gateway::network::load_other(&gw, NetworkId(1)).unwrap();
    assert_eq!(other.network, this_item);
    assert_eq!(
        other.connection,
        OtherNetworkItem { xcvm_channel: Some(ChannelInfo { id: "channel-0".to_string() }) }
    );
    // A network that was never forced cannot be resolved.
    assert!(xcvm_gateway::network::load_other(&gw, NetworkId(2)).is_err());

    // Direct handler calls carry the admin capability.
    let token = Admin::authorise(&gw, &admin_info).unwrap();
    let resp = force_network(
        token,
        &mut gw,
        NetworkItem { id: NetworkId(3), relay_channel: Some("relay".to_string()) },
    )
    .unwrap();
    assert_eq!(resp.events[0].attributes[1], ("id".to_string(), "3".to_string()));
}
