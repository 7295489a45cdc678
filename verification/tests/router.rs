use xcvm_gateway::error::ContractError;
use xcvm_gateway::events::Event;
use xcvm_gateway::execute::{execute, handle_instantiate_reply, Reply, SubMsgResponse};
use xcvm_gateway::msg::{Asset, AssetReference, BridgeForwardMsg, BridgeMsg, ExecuteMsg,
    ExecuteProgramMsg, InstantiateMsg, RegisterAssetMsg};
use xcvm_gateway::origin::encode_origin;
use xcvm_gateway::response::DeferredAction;
use xcvm_gateway::state::{instantiate, Gateway};
use xcvm_gateway::transfer::{send_funds_to_interpreter, transfer_from_user};
use xcvm_gateway::types::{AssetId, CallOrigin, Coin, Funds, InterpreterOrigin, MessageInfo,
    NetworkId, UserOrigin};

const GATEWAY: &str = "gateway";
const ADMIN: &str = "admin";

fn setup() -> (Gateway, MessageInfo) {
    let msg = InstantiateMsg {
        interpreter_code_id: 11,
        network_id: NetworkId(1),
        admin: ADMIN.to_string(),
        ibc_ics_20_sender: None,
    };
    let (gw, _resp) = instantiate(GATEWAY.to_string(), msg);
    (gw, MessageInfo { sender: ADMIN.to_string(), funds: vec![] })
}

fn register(gw: &mut Gateway, admin: &MessageInfo, id: u128, asset: Asset) {
    execute(
        gw,
        admin.clone(),
        ExecuteMsg::RegisterAsset(RegisterAssetMsg { id: AssetId(id), asset }),
    )
    .unwrap();
}

fn native(denom: &str) -> Asset {
    Asset { network_id: NetworkId(1), local: AssetReference::Native { denom: denom.to_string() } }
}

fn virtual_asset(addr: &str) -> Asset {
    Asset {
        network_id: NetworkId(1),
        local: AssetReference::Virtual { cw20_address: addr.to_string() },
    }
}

fn alice_origin() -> InterpreterOrigin {
    InterpreterOrigin {
        user_origin: UserOrigin { network_id: NetworkId(1), user_id: "alice".to_string() },
        salt: vec![0],
    }
}

fn program_msg(assets: Vec<(AssetId, u128)>) -> ExecuteProgramMsg {
    ExecuteProgramMsg { salt: vec![0], program: vec![1, 2, 3], assets: Funds(assets) }
}

/// The reply the host delivers after a successful instantiation.
fn instantiation_reply(address: &str, origin: &InterpreterOrigin) -> Reply {
    Reply {
        result: Ok(SubMsgResponse {
            events: vec![
                Event {
                    ty: "instantiate".to_string(),
                    attributes: vec![(
                        "_contract_address".to_string(),
                        address.to_string(),
                    )],
                },
                Event {
                    ty: "wasm-xcvm.interpreter.instantiated".to_string(),
                    attributes: vec![("origin".to_string(), encode_origin(origin))],
                },
            ],
        }),
    }
}

#[test]
fn insufficient_native_attachment_fails() {
    // Requiring 100upica with only 90upica attached fails with
    // InsufficientFunds.
    let (mut gw, admin) = setup();
    register(&mut gw, &admin, 5, native("upica"));
    let info = MessageInfo {
        sender: "alice".to_string(),
        funds: vec![Coin { denom: "upica".to_string(), amount: 90 }],
    };
    let r = execute(
        &mut gw,
        info,
        ExecuteMsg::ExecuteProgram {
            execute_program: program_msg(vec![(AssetId(5), 100)]),
            tip: "tip".to_string(),
        },
    );
    assert_eq!(r, Err(ContractError::InsufficientFunds));
}

#[test]
fn exact_native_attachment_reaches_privileged_self_call() {
    let (mut gw, admin) = setup();
    register(&mut gw, &admin, 5, native("upica"));
    let info = MessageInfo {
        sender: "alice".to_string(),
        funds: vec![Coin { denom: "upica".to_string(), amount: 100 }],
    };
    let resp = execute(
        &mut gw,
        info,
        ExecuteMsg::ExecuteProgram {
            execute_program: program_msg(vec![(AssetId(5), 100)]),
            tip: "tip".to_string(),
        },
    )
    .unwrap();
    // The attachment is the transfer: no pull action, just the
    // privileged self re-invocation.
    assert_eq!(resp.messages.len(), 1);
    match &resp.messages[0].action {
        DeferredAction::SelfDispatch { msg: ExecuteMsg::ExecuteProgramPrivileged { call_origin, .. } } => {
            assert_eq!(
                call_origin,
                &CallOrigin::Local { user: "alice".to_string() }
            );
        },
        other => panic!("unexpected action: {:?}", other),
    }
}

#[test]
fn privileged_requires_self() {
    // Any caller other than the router's own address is refused.
    let (mut gw, _admin) = setup();
    let info = MessageInfo { sender: "mallory".to_string(), funds: vec![] };
    let r = execute(
        &mut gw,
        info,
        ExecuteMsg::ExecuteProgramPrivileged {
            call_origin: CallOrigin::Local { user: "alice".to_string() },
            execute_program: program_msg(vec![]),
            tip: "tip".to_string(),
        },
    );
    assert_eq!(r, Err(ContractError::Unauthorized));
}

#[test]
fn lazy_provisioning_full_cycle() {
    // First privileged request for (network=1, user="alice", salt=0):
    // an instantiation soliciting a reply, then the self
    // re-invocation.  After the reply is processed the origin is
    // ready, and the re-invocation dispatches the program.
    let (mut gw, admin) = setup();
    register(&mut gw, &admin, 5, native("upica"));
    let self_info = MessageInfo { sender: GATEWAY.to_string(), funds: vec![] };
    let request = ExecuteMsg::ExecuteProgramPrivileged {
        call_origin: CallOrigin::Local { user: "alice".to_string() },
        execute_program: program_msg(vec![(AssetId(5), 100)]),
        tip: "tip".to_string(),
    };

    let first = execute(&mut gw, self_info.clone(), request.clone()).unwrap();
    assert_eq!(first.messages.len(), 2);
    assert!(first.messages[0].reply_on_success);
    let origin = match &first.messages[0].action {
        DeferredAction::Instantiate { admin, code_id, origin } => {
            assert_eq!(admin, GATEWAY);
            assert_eq!(*code_id, 11);
            assert_eq!(origin, &alice_origin());
            origin.clone()
        },
        other => panic!("unexpected action: {:?}", other),
    };
    let retry = match &first.messages[1].action {
        DeferredAction::SelfDispatch { msg } => {
            assert!(!first.messages[1].reply_on_success);
            msg.clone()
        },
        other => panic!("unexpected action: {:?}", other),
    };
    assert_eq!(retry, request);

    // The host runs the instantiation, then delivers its reply
    // before the self re-invocation starts.
    handle_instantiate_reply(&mut gw, instantiation_reply("interp1", &origin)).unwrap();

    let second = execute(&mut gw, self_info, retry).unwrap();
    let last = second.messages.last().unwrap();
    match &last.action {
        DeferredAction::DispatchProgram { interpreter, tip, program } => {
            assert_eq!(interpreter, "interp1");
            assert_eq!(tip, "tip");
            assert_eq!(program, &vec![1, 2, 3]);
        },
        other => panic!("unexpected action: {:?}", other),
    }
    // The escrowed native funds travel first.
    match &second.messages[0].action {
        DeferredAction::BankSend { to_address, denom, amount } => {
            assert_eq!(to_address, "interp1");
            assert_eq!(denom, "upica");
            assert_eq!(*amount, 100);
        },
        other => panic!("unexpected action: {:?}", other),
    }
}

#[test]
fn repeated_privileged_requests_reuse_the_interpreter() {
    // Idempotent provisioning: after the first cycle, any number of
    // requests for the same origin resolve to the same address.
    let (mut gw, _admin) = setup();
    let origin = alice_origin();
    handle_instantiate_reply(&mut gw, instantiation_reply("interp1", &origin)).unwrap();
    let self_info = MessageInfo { sender: GATEWAY.to_string(), funds: vec![] };
    let request = ExecuteMsg::ExecuteProgramPrivileged {
        call_origin: CallOrigin::Local { user: "alice".to_string() },
        execute_program: program_msg(vec![]),
        tip: "tip".to_string(),
    };
    for _ in 0..3 {
        let resp = execute(&mut gw, self_info.clone(), request.clone()).unwrap();
        match &resp.messages.last().unwrap().action {
            DeferredAction::DispatchProgram { interpreter, .. } => {
                assert_eq!(interpreter, "interp1");
            },
            other => panic!("unexpected action: {:?}", other),
        }
    }
}

#[test]
fn later_reply_overwrites_with_equivalent_record() {
    let (mut gw, _admin) = setup();
    let origin = alice_origin();
    handle_instantiate_reply(&mut gw, instantiation_reply("interp1", &origin)).unwrap();
    handle_instantiate_reply(&mut gw, instantiation_reply("interp1", &origin)).unwrap();
    assert_eq!(gw.interpreters.len(), 1);
}

#[test]
fn reply_failures_are_hard_failures() {
    let (mut gw, _admin) = setup();
    // A failed instantiation result.
    let r = handle_instantiate_reply(&mut gw, Reply { result: Err("boom".to_string()) });
    assert!(matches!(r, Err(ContractError::HostError(_))));
    // A reply without the instantiation event.
    let r = handle_instantiate_reply(
        &mut gw,
        Reply { result: Ok(SubMsgResponse { events: vec![] }) },
    );
    assert!(matches!(r, Err(ContractError::NotFound(_))));
    // A reply with a malformed origin payload.
    let reply = Reply {
        result: Ok(SubMsgResponse {
            events: vec![
                Event {
                    ty: "instantiate".to_string(),
                    attributes: vec![("_contract_address".to_string(), "interp1".to_string())],
                },
                Event {
                    ty: "wasm-xcvm.interpreter.instantiated".to_string(),
                    attributes: vec![("origin".to_string(), "not an origin".to_string())],
                },
            ],
        }),
    };
    let r = handle_instantiate_reply(&mut gw, reply);
    assert!(matches!(r, Err(ContractError::HostError(_))));
    assert_eq!(gw.interpreters.len(), 0);
}

#[test]
fn bridge_forward_routes_by_funds() {
    // A non-empty funds list routes to the value-bearing handler,
    // an empty one to the asset-free handler.
    let (mut gw, _admin) = setup();
    let origin = alice_origin();
    handle_instantiate_reply(&mut gw, instantiation_reply("interp1", &origin)).unwrap();
    let info = MessageInfo { sender: "interp1".to_string(), funds: vec![] };

    let with_assets = execute(
        &mut gw,
        info.clone(),
        ExecuteMsg::BridgeForward(BridgeForwardMsg {
            interpreter_origin: origin.clone(),
            msg: BridgeMsg { assets: Funds(vec![(AssetId(5), 7)]), payload: vec![] },
        }),
    )
    .unwrap();
    assert_eq!(with_assets.events[0].attributes[0].1, "bridge.forward");

    let without_assets = execute(
        &mut gw,
        info,
        ExecuteMsg::BridgeForward(BridgeForwardMsg {
            interpreter_origin: origin,
            msg: BridgeMsg { assets: Funds(vec![]), payload: vec![] },
        }),
    )
    .unwrap();
    assert_eq!(without_assets.events[0].attributes[0].1, "bridge.forward.no_assets");
}

#[test]
fn bridge_forward_requires_recorded_interpreter() {
    let (mut gw, _admin) = setup();
    let origin = alice_origin();
    handle_instantiate_reply(&mut gw, instantiation_reply("interp1", &origin)).unwrap();
    let info = MessageInfo { sender: "impostor".to_string(), funds: vec![] };
    let r = execute(
        &mut gw,
        info,
        ExecuteMsg::BridgeForward(BridgeForwardMsg {
            interpreter_origin: origin,
            msg: BridgeMsg { assets: Funds(vec![]), payload: vec![] },
        }),
    );
    assert_eq!(r, Err(ContractError::Unauthorized));
}

#[test]
fn pull_plan_conserves_declared_funds() {
    // 100 native stays with the attachment, 50 virtual becomes one
    // pull action: together they cover the declared 150.
    let (mut gw, admin) = setup();
    register(&mut gw, &admin, 5, native("upica"));
    register(&mut gw, &admin, 6, virtual_asset("cw20addr"));
    let attached = vec![Coin { denom: "upica".to_string(), amount: 100 }];
    let funds = Funds(vec![(AssetId(5), 100), (AssetId(6), 50)]);
    let actions = transfer_from_user(
        &gw,
        GATEWAY.to_string(),
        "alice".to_string(),
        &attached,
        &funds,
    )
    .unwrap();
    assert_eq!(actions.len(), 1);
    match &actions[0] {
        DeferredAction::Cw20TransferFrom { contract, owner, recipient, amount } => {
            assert_eq!(contract, "cw20addr");
            assert_eq!(owner, "alice");
            assert_eq!(recipient, GATEWAY);
            assert_eq!(*amount, 50);
        },
        other => panic!("unexpected action: {:?}", other),
    }
    assert_eq!(100 + 50, 100 + actions.len() as u128 * 50);
}

#[test]
fn pull_of_unknown_asset_fails() {
    let (gw, _admin) = setup();
    let r = transfer_from_user(
        &gw,
        GATEWAY.to_string(),
        "alice".to_string(),
        &vec![],
        &Funds(vec![(AssetId(42), 1)]),
    );
    assert_eq!(r, Err(ContractError::UnsupportedAsset));
}

#[test]
fn zero_amounts_are_never_pushed() {
    let (mut gw, admin) = setup();
    register(&mut gw, &admin, 5, native("upica"));
    let resp = send_funds_to_interpreter(
        &gw,
        "interp1".to_string(),
        Funds(vec![(AssetId(5), 0)]),
    )
    .unwrap();
    assert_eq!(resp.messages.len(), 0);
}

#[test]
fn ics20_hook_requires_the_configured_hook() {
    let msg = InstantiateMsg {
        interpreter_code_id: 11,
        network_id: NetworkId(1),
        admin: ADMIN.to_string(),
        ibc_ics_20_sender: Some("hook".to_string()),
    };
    let (mut gw, _resp) = instantiate(GATEWAY.to_string(), msg);
    let admin_info = MessageInfo { sender: ADMIN.to_string(), funds: vec![] };
    execute(
        &mut gw,
        admin_info,
        ExecuteMsg::ForceNetwork(xcvm_gateway::network::NetworkItem {
            id: NetworkId(2),
            relay_channel: None,
        }),
    )
    .unwrap();

    let hook_msg = ExecuteMsg::Ics20MessageHook(xcvm_gateway::msg::Ics20MessageHookMsg {
        from_network_id: NetworkId(2),
        payload: vec![1],
    });
    let stranger = MessageInfo { sender: "stranger".to_string(), funds: vec![] };
    assert_eq!(
        execute(&mut gw, stranger, hook_msg.clone()),
        Err(ContractError::Unauthorized)
    );
    let hook = MessageInfo { sender: "hook".to_string(), funds: vec![] };
    let resp = execute(&mut gw, hook.clone(), hook_msg).unwrap();
    assert_eq!(resp.events[0].attributes[0].1, "ics20.message.hook");

    // An unregistered claimed network is refused even for the hook.
    let unknown = ExecuteMsg::Ics20MessageHook(xcvm_gateway::msg::Ics20MessageHookMsg {
        from_network_id: NetworkId(9),
        payload: vec![],
    });
    assert_eq!(execute(&mut gw, hook, unknown), Err(ContractError::Unauthorized));
}
