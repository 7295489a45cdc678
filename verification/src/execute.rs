use vstd::prelude::*;

use crate::assets::{handle_register_asset, handle_unregister_asset, lookup_spec, query_lookup,
    register_spec, unregister_spec};
use crate::auth::{admin_auth_spec, contract_auth_spec, interpreter_auth_spec, wasm_hook_auth_spec,
    Admin, Contract, Interpreter as InterpreterAuth, WasmHook};
use crate::codec::u128_to_dec;
use crate::error::ContractError;
use crate::events::{make_event, Event};
use crate::msg::{BridgeForwardMsg, ExecuteMsg, ExecuteProgramMsg, Ics20MessageHookMsg,
    LookupResponse, QueryMsg};
use crate::network::{force_network, force_network_to_network, handle_ibc_set_network_channel};
use crate::origin::{decode_origin, origin_of_encoding};
use crate::response::{DeferredAction, Response, SubMsg};
use crate::state::{Gateway, Interpreter};
use crate::transfer::{pull_plan, push_plan, send_funds_to_interpreter, transfer_from_user};
use crate::types::{CallOrigin, InterpreterOrigin, MessageInfo, NetworkId, OriginV, copy_bytes};

verus! {

// ------------------------------------------------------------- replies

/// What a completed deferred action reports back to the router.
#[derive(Clone, Debug, PartialEq, Eq)]
pub struct SubMsgResponse {
    pub events: Vec<Event>,
}

/// A reply correlated to an instantiation request: the host delivers
/// it before the sibling self re-invocation starts executing.
#[derive(Debug, PartialEq, Eq)]
pub struct Reply {
    pub result: Result<SubMsgResponse, String>,
}

/// First event whose type is exactly `ty`.
pub open spec fn find_event_exact(events: Seq<Event>, ty: Seq<char>) -> Option<Event>
    decreases events.len(),
{
    if events.len() == 0 {
        None
    } else if events[0].ty@ == ty {
        Some(events[0])
    } else {
        find_event_exact(events.drop_first(), ty)
    }
}

/// First event whose type starts with `prefix`.
pub open spec fn find_event_prefixed(events: Seq<Event>, prefix: Seq<char>) -> Option<Event>
    decreases events.len(),
{
    if events.len() == 0 {
        None
    } else if prefix.is_prefix_of(events[0].ty@) {
        Some(events[0])
    } else {
        find_event_prefixed(events.drop_first(), prefix)
    }
}

/// Value of the first attribute with the given key.
pub open spec fn find_attr(attrs: Seq<(String, String)>, key: Seq<char>) -> Option<String>
    decreases attrs.len(),
{
    if attrs.len() == 0 {
        None
    } else if attrs[0].0@ == key {
        Some(attrs[0].1)
    } else {
        find_attr(attrs.drop_first(), key)
    }
}

/// Whether `s` starts with `prefix`.
fn str_is_prefix(s: &String, prefix: &str) -> (r: bool)
    ensures
        r == prefix@.is_prefix_of(s@),
{
    let np = prefix.unicode_len();
    let ns = s.as_str().unicode_len();
    if np > ns {
        return false;
    }
    let mut i: usize = 0;
    while i < np
        invariant
            i <= np,
            np == prefix@.len(),
            ns == s@.len(),
            np <= ns,
            forall|j: int| 0 <= j < i ==> prefix@[j] == s@[j],
        decreases np - i,
    {
        if prefix.get_char(i) != s.as_str().get_char(i) {
            return false;
        }
        i = i + 1;
    }
    proof {
        assert(prefix@ =~= s@.subrange(0, np as int));
    }
    true
}

/// First event with exactly the given type, as [`find_event_exact`]
/// states it.
fn find_event_by_ty<'a>(events: &'a Vec<Event>, ty: &str) -> (r: Option<&'a Event>)
    ensures
        match r {
            Some(e) => find_event_exact(events@, ty@) == Some(*e),
            None => find_event_exact(events@, ty@) is None,
        },
{
    let mut i: usize = 0;
    proof {
        assert(events@.skip(0) =~= events@);
    }
    while i < events.len()
        invariant
            i <= events@.len(),
            find_event_exact(events@, ty@) == find_event_exact(events@.skip(i as int), ty@),
        decreases events@.len() - i,
    {
        proof {
            assert(events@.skip(i as int)[0] == events@[i as int]);
            assert(events@.skip(i as int).drop_first() =~= events@.skip(i as int + 1));
        }
        if events[i].ty.eq(&ty.to_owned()) {
            return Some(&events[i]);
        }
        i = i + 1;
    }
    proof {
        assert(events@.skip(events@.len() as int).len() == 0);
    }
    None
}

/// First event whose type starts with `prefix`, as
/// [`find_event_prefixed`] states it.
fn find_event_by_prefix<'a>(events: &'a Vec<Event>, prefix: &str) -> (r: Option<&'a Event>)
    ensures
        match r {
            Some(e) => find_event_prefixed(events@, prefix@) == Some(*e),
            None => find_event_prefixed(events@, prefix@) is None,
        },
{
    let mut i: usize = 0;
    proof {
        assert(events@.skip(0) =~= events@);
    }
    while i < events.len()
        invariant
            i <= events@.len(),
            find_event_prefixed(events@, prefix@) == find_event_prefixed(
                events@.skip(i as int),
                prefix@,
            ),
        decreases events@.len() - i,
    {
        proof {
            assert(events@.skip(i as int)[0] == events@[i as int]);
            assert(events@.skip(i as int).drop_first() =~= events@.skip(i as int + 1));
        }
        if str_is_prefix(&events[i].ty, prefix) {
            return Some(&events[i]);
        }
        i = i + 1;
    }
    proof {
        assert(events@.skip(events@.len() as int).len() == 0);
    }
    None
}

/// Value of the first attribute with the given key, as [`find_attr`]
/// states it.
fn find_attr_value<'a>(attrs: &'a Vec<(String, String)>, key: &str) -> (r: Option<&'a String>)
    ensures
        match r {
            Some(v) => find_attr(attrs@, key@) == Some(*v),
            None => find_attr(attrs@, key@) is None,
        },
{
    let mut i: usize = 0;
    proof {
        assert(attrs@.skip(0) =~= attrs@);
    }
    while i < attrs.len()
        invariant
            i <= attrs@.len(),
            find_attr(attrs@, key@) == find_attr(attrs@.skip(i as int), key@),
        decreases attrs@.len() - i,
    {
        proof {
            assert(attrs@.skip(i as int)[0] == attrs@[i as int]);
            assert(attrs@.skip(i as int).drop_first() =~= attrs@.skip(i as int + 1));
        }
        if attrs[i].0.eq(&key.to_owned()) {
            return Some(&attrs[i].1);
        }
        i = i + 1;
    }
    proof {
        assert(attrs@.skip(attrs@.len() as int).len() == 0);
    }
    None
}

/// The sandbox address and origin a well-formed instantiation reply
/// carries: the address from the default instantiation event, the
/// origin echoed back by the interpreter's own event.  `None` when
/// any field is missing or malformed.
pub open spec fn reply_extract(msg: Reply) -> Option<(String, OriginV)> {
    match msg.result {
        Err(_) => None,
        Ok(resp) => match find_event_exact(resp.events@, "instantiate"@) {
            None => None,
            Some(ev) => match find_attr(ev.attributes@, "_contract_address"@) {
                None => None,
                Some(address) => if address@.len() == 0 {
                    None
                } else {
                    match find_event_prefixed(resp.events@, "wasm-xcvm.interpreter"@) {
                        None => None,
                        Some(ev2) => match find_attr(ev2.attributes@, "origin"@) {
                            None => None,
                            Some(enc) => match origin_of_encoding(enc@) {
                                None => None,
                                Some(v) => Some((address, v)),
                            },
                        },
                    }
                },
            },
        },
    }
}

/// Handles the reply to an interpreter instantiation: extracts the
/// assigned sandbox address and the echoed origin, and persists the
/// `Ready` record.  A malformed or incomplete reply is a hard
/// failure and nothing is written.
pub fn handle_instantiate_reply(gw: &mut Gateway, msg: Reply) -> (r: Result<Response, ContractError>)
    requires
        old(gw).wf(),
    ensures
        final(gw).wf(),
        final(gw).same_but_interpreters(old(gw)),
        match reply_extract(msg) {
            Some(t) => r matches Ok(resp) && resp.events@.len() == 0 && resp.messages@.len() == 0
                && final(gw).interpreters_map() == old(gw).interpreters_map().insert(
                t.1,
                Interpreter { address: t.0 },
            ),
            None => r is Err && final(gw).interpreters_map() == old(gw).interpreters_map(),
        },
        msg.result is Err ==> (r matches Err(e) && e is HostError),
        r matches Err(e) ==> (e is HostError || e is NotFound),
{
    let response = match msg.result {
        Ok(response) => response,
        Err(e) => {
            return Err(ContractError::HostError(e));
        },
    };
    let address = {
        let event = match find_event_by_ty(&response.events, "instantiate") {
            Some(event) => event,
            None => {
                return Err(ContractError::NotFound("instantiate event not found".to_owned()));
            },
        };
        match find_attr_value(&event.attributes, "_contract_address") {
            Some(address) => address.clone(),
            None => {
                return Err(ContractError::NotFound(
                    "_contract_address attribute not found".to_owned(),
                ));
            },
        }
    };
    if address.as_str().unicode_len() == 0 {
        return Err(ContractError::HostError("malformed interpreter address".to_owned()));
    }
    let encoded = {
        let event = match find_event_by_prefix(&response.events, "wasm-xcvm.interpreter") {
            Some(event) => event,
            None => {
                return Err(ContractError::NotFound("interpreter event not found".to_owned()));
            },
        };
        match find_attr_value(&event.attributes, "origin") {
            Some(value) => value.clone(),
            None => {
                return Err(ContractError::NotFound(
                    "no data is returned from the interpreter".to_owned(),
                ));
            },
        }
    };
    let origin = match decode_origin(encoded.as_str()) {
        Some(origin) => origin,
        None => {
            return Err(ContractError::HostError("malformed interpreter origin".to_owned()));
        },
    };
    gw.interpreters.set(origin, Interpreter { address });
    Ok(Response::new())
}

// ------------------------------------------------------------- programs

/// The directory key of the sandbox a privileged request resolves
/// to: the verified call origin stamped with the local network, plus
/// the request's salt.
pub open spec fn origin_key(net: NetworkId, call_origin: CallOrigin, salt: Seq<u8>) -> OriginV {
    let uo = call_origin.user_origin_spec(net);
    OriginV { network_id: uo.network_id@, user_id: uo.user_id@, salt }
}

/// What handling an unprivileged execute request returns: on
/// success, the pull plan for the declared funds followed by one
/// self re-invocation of the identical request under the verified
/// local origin; on failure, exactly the pull plan's error.
pub open spec fn program_outcome(
    gw: Gateway,
    info: MessageInfo,
    ep: ExecuteProgramMsg,
    tip: String,
    r: Result<Response, ContractError>,
) -> bool {
    match pull_plan(gw.assets_map(), info.funds@, ep.assets.0@, info.sender, gw.config.self_address) {
        Ok(plan) => r matches Ok(resp) && {
            &&& resp.events@.len() == 0
            &&& resp.messages@.len() == plan.len() + 1
            &&& forall|j: int|
                0 <= j < plan.len() ==> resp.messages@[j] == SubMsg::plain_spec(#[trigger] plan[j])
            &&& resp.messages@.last() == SubMsg::plain_spec(
                DeferredAction::SelfDispatch {
                    msg: ExecuteMsg::ExecuteProgramPrivileged {
                        call_origin: CallOrigin::Local { user: info.sender },
                        execute_program: ep,
                        tip,
                    },
                },
            )
        },
        Err(e) => r == Err::<Response, ContractError>(e),
    }
}

/// Entry point for executing a program from a user: plans the pull
/// of the declared funds into custody and re-invokes the router
/// itself on the privileged path with the verified local origin.
pub fn handle_execute_program(
    gw: &Gateway,
    info: MessageInfo,
    execute_program: ExecuteProgramMsg,
    tip: String,
) -> (r: Result<Response, ContractError>)
    requires
        gw.wf(),
    ensures
        program_outcome(*gw, info, execute_program, tip, r),
{
    let self_address = gw.config.self_address.clone();
    let transfers = match transfer_from_user(
        gw,
        self_address,
        info.sender.clone(),
        &info.funds,
        &execute_program.assets,
    ) {
        Ok(transfers) => transfers,
        Err(e) => {
            return Err(e);
        },
    };
    let ghost plan = transfers@;
    let mut messages: Vec<SubMsg> = Vec::new();
    let mut rest = transfers;
    while rest.len() > 0
        invariant
            messages@.len() + rest@.len() == plan.len(),
            rest@ == plan.skip(messages@.len() as int),
            forall|j: int|
                0 <= j < messages@.len() ==> messages@[j] == SubMsg::plain_spec(#[trigger] plan[j]),
        decreases rest@.len(),
    {
        let action = rest.remove(0);
        proof {
            assert(plan.skip(messages@.len() as int)[0] == plan[messages@.len() as int]);
            assert(plan.skip(messages@.len() as int).remove(0) =~= plan.skip(
                messages@.len() as int + 1,
            ));
        }
        messages.push(SubMsg { action, reply_on_success: false });
    }
    messages.push(SubMsg {
        action: DeferredAction::SelfDispatch {
            msg: ExecuteMsg::ExecuteProgramPrivileged {
                call_origin: CallOrigin::Local { user: info.sender },
                execute_program,
                tip,
            },
        },
        reply_on_success: false,
    });
    Ok(Response { events: Vec::new(), messages })
}

/// What handling a privileged execute request returns.  With a
/// sandbox on record: the push plan forwarding the escrowed funds,
/// then the program dispatched to the recorded address.  Without
/// one: exactly two deferred actions, an instantiation soliciting a
/// reply, then the identical request re-sent to the router itself.
pub open spec fn privileged_outcome(
    gw: Gateway,
    call_origin: CallOrigin,
    ep: ExecuteProgramMsg,
    tip: String,
    r: Result<Response, ContractError>,
) -> bool {
    let key = origin_key(gw.config.network_id, call_origin, ep.salt@);
    if gw.interpreters_map().contains_key(key) {
        let addr = gw.interpreters_map()[key].address;
        match push_plan(gw.assets_map(), ep.assets.0@, addr) {
            Ok(plan) => r matches Ok(resp) && {
                &&& resp.events@.len() == 1
                &&& resp.events@[0].attributes@.len() == 2
                &&& resp.events@[0].attributes@[0].1@ == "route.execute"@
                &&& resp.events@[0].attributes@[1].0@ == "interpreter"@
                &&& resp.events@[0].attributes@[1].1 == addr
                &&& resp.messages@.len() == plan.len() + 1
                &&& forall|j: int|
                    0 <= j < plan.len() ==> resp.messages@[j] == SubMsg::plain_spec(
                        #[trigger] plan[j],
                    )
                &&& resp.messages@.last() == SubMsg::plain_spec(
                    DeferredAction::DispatchProgram {
                        interpreter: addr,
                        tip,
                        program: ep.program,
                    },
                )
            },
            Err(e) => r == Err::<Response, ContractError>(e),
        }
    } else {
        r matches Ok(resp) && {
            &&& resp.events@.len() == 1
            &&& resp.events@[0].attributes@.len() == 1
            &&& resp.events@[0].attributes@[0].1@ == "route.create"@
            &&& resp.messages@.len() == 2
            &&& resp.messages@[0].reply_on_success
            &&& resp.messages@[0].action matches DeferredAction::Instantiate {
                admin,
                code_id,
                origin,
            } && admin == gw.config.self_address && code_id == gw.config.interpreter_code_id
                && origin@ == key
            &&& !resp.messages@[1].reply_on_success
            &&& resp.messages@[1].action matches DeferredAction::SelfDispatch { msg: m2 } && (
            m2 matches ExecuteMsg::ExecuteProgramPrivileged {
                call_origin: co,
                execute_program: ep2,
                tip: t2,
            } && co == call_origin && t2 == tip && ep2.salt@ == ep.salt@ && ep2.program
                == ep.program && ep2.assets == ep.assets)
        }
    }
}

/// Handles a privileged execute request: only the router itself may
/// dispatch this, and it trusts the carried call origin.  Resolves
/// the interpreter for `(network, user, salt)` lazily: with a record
/// it forwards funds and dispatches, without one it emits the
/// instantiate-then-retry pair whose ordering the host guarantees.
pub fn handle_execute_program_privilleged(
    _auth: Contract,
    gw: &Gateway,
    call_origin: CallOrigin,
    execute_program: ExecuteProgramMsg,
    tip: String,
) -> (r: Result<Response, ContractError>)
    requires
        gw.wf(),
    ensures
        privileged_outcome(*gw, call_origin, execute_program, tip, r),
{
    let ghost ep = execute_program;
    let ExecuteProgramMsg { salt, program, assets } = execute_program;
    let user_origin = call_origin.user(gw.config.network_id);
    let interpreter_origin = InterpreterOrigin { user_origin, salt };
    proof {
        assert(interpreter_origin@ == origin_key(gw.config.network_id, call_origin, ep.salt@));
    }
    match gw.interpreters.get(&interpreter_origin) {
        Some(record) => {
            let address = record.address.clone();
            let mut response = match send_funds_to_interpreter(gw, address.clone(), assets) {
                Ok(response) => response,
                Err(e) => {
                    return Err(e);
                },
            };
            let event = make_event("route.execute").add_attribute("interpreter", address.clone());
            response.events.push(event);
            response.messages.push(SubMsg {
                action: DeferredAction::DispatchProgram { interpreter: address, tip, program },
                reply_on_success: false,
            });
            proof {
                let key = origin_key(gw.config.network_id, call_origin, ep.salt@);
                let addr = gw.interpreters_map()[key].address;
                let plan = push_plan(gw.assets_map(), ep.assets.0@, addr)->Ok_0;
                assert(response.messages@.last() == SubMsg::plain_spec(
                    DeferredAction::DispatchProgram {
                        interpreter: addr,
                        tip: tip,
                        program: ep.program,
                    },
                ));
                assert(forall|j: int|
                    0 <= j < plan.len() ==> response.messages@[j] == SubMsg::plain_spec(
                        #[trigger] plan[j],
                    ));
            }
            Ok(response)
        },
        None => {
            let salt_again = copy_bytes(&interpreter_origin.salt);
            let mut messages: Vec<SubMsg> = Vec::new();
            messages.push(SubMsg {
                action: DeferredAction::Instantiate {
                    admin: gw.config.self_address.clone(),
                    code_id: gw.config.interpreter_code_id,
                    origin: interpreter_origin,
                },
                reply_on_success: true,
            });
            messages.push(SubMsg {
                action: DeferredAction::SelfDispatch {
                    msg: ExecuteMsg::ExecuteProgramPrivileged {
                        call_origin,
                        execute_program: ExecuteProgramMsg { salt: salt_again, program, assets },
                        tip,
                    },
                },
                reply_on_success: false,
            });
            let mut events = Vec::new();
            events.push(make_event("route.create"));
            Ok(Response { events, messages })
        },
    }
}

/// The address the last deferred action of a response dispatches a
/// program to, if any.
pub open spec fn dispatch_target(r: Result<Response, ContractError>) -> Option<String> {
    match r {
        Ok(resp) => if resp.messages@.len() > 0 && resp.messages@.last().action
            is DispatchProgram {
            Some(resp.messages@.last().action->DispatchProgram_interpreter)
        } else {
            None
        },
        Err(_) => None,
    }
}

/// Idempotent provisioning: once a sandbox is on record for an
/// origin, every privileged execution for that origin whose escrowed
/// assets all resolve must succeed and dispatches to that same
/// recorded address, and none of them touches the directory, so any
/// number of consecutive requests resolve to the identical
/// interpreter.
pub proof fn lemma_provisioning_idempotent(
    gw: Gateway,
    co1: CallOrigin,
    ep1: ExecuteProgramMsg,
    tip1: String,
    r1: Result<Response, ContractError>,
    co2: CallOrigin,
    ep2: ExecuteProgramMsg,
    tip2: String,
    r2: Result<Response, ContractError>,
)
    requires
        privileged_outcome(gw, co1, ep1, tip1, r1),
        privileged_outcome(gw, co2, ep2, tip2, r2),
        origin_key(gw.config.network_id, co1, ep1.salt@) == origin_key(
            gw.config.network_id,
            co2,
            ep2.salt@,
        ),
        gw.interpreters_map().contains_key(origin_key(gw.config.network_id, co1, ep1.salt@)),
        push_plan(
            gw.assets_map(),
            ep1.assets.0@,
            gw.interpreters_map()[origin_key(gw.config.network_id, co1, ep1.salt@)].address,
        ) is Ok,
        push_plan(
            gw.assets_map(),
            ep2.assets.0@,
            gw.interpreters_map()[origin_key(gw.config.network_id, co1, ep1.salt@)].address,
        ) is Ok,
    ensures
        r1 is Ok,
        r2 is Ok,
        dispatch_target(r1) == Some(
            gw.interpreters_map()[origin_key(gw.config.network_id, co1, ep1.salt@)].address,
        ),
        dispatch_target(r1) == dispatch_target(r2),
{
}

// -------------------------------------------------------------- bridging

/// Routes a value-bearing bridge forward.  Packet construction
/// itself is the memo builder's business; this handler records which
/// path the request took.
pub fn handle_bridge_forward(_auth: InterpreterAuth, gw: &Gateway, msg: BridgeForwardMsg) -> (r:
    Result<Response, ContractError>)
    ensures
        r matches Ok(resp) && resp.messages@.len() == 0 && resp.events@.len() == 1
            && resp.events@[0].attributes@.len() == 2
            && resp.events@[0].attributes@[0].1@ == "bridge.forward"@
            && resp.events@[0].attributes@[1].0@ == "assets"@
            && resp.events@[0].attributes@[1].1@ == crate::codec::dec_of(msg.msg.assets.0@.len()),
{
    let count = msg.msg.assets.0.len();
    let event = make_event("bridge.forward").add_attribute("assets", u128_to_dec(count as u128));
    let mut events = Vec::new();
    events.push(event);
    Ok(Response { events, messages: Vec::new() })
}

/// Routes an asset-free bridge forward.
pub fn handle_bridge_forward_no_assets(_auth: InterpreterAuth, gw: &Gateway, msg: BridgeForwardMsg)
    -> (r: Result<Response, ContractError>)
    ensures
        r matches Ok(resp) && resp.messages@.len() == 0 && resp.events@.len() == 1
            && resp.events@[0].attributes@.len() == 1
            && resp.events@[0].attributes@[0].1@ == "bridge.forward.no_assets"@,
{
    let event = make_event("bridge.forward.no_assets");
    let mut events = Vec::new();
    events.push(event);
    Ok(Response { events, messages: Vec::new() })
}

/// Handles an inbound packet delivered by the trusted hook of a
/// registered network.
pub fn ics20_message_hook(_auth: WasmHook, gw: &Gateway, msg: Ics20MessageHookMsg) -> (r: Result<
    Response,
    ContractError,
>)
    ensures
        r matches Ok(resp) && resp.messages@.len() == 0 && resp.events@.len() == 1
            && resp.events@[0].attributes@.len() == 1
            && resp.events@[0].attributes@[0].1@ == "ics20.message.hook"@,
{
    let event = make_event("ics20.message.hook");
    let mut events = Vec::new();
    events.push(event);
    Ok(Response { events, messages: Vec::new() })
}

// ------------------------------------------------------------ dispatcher

/// The router's execute surface: authorizes the caller per command
/// and dispatches to the corresponding handler.  Privileged
/// continuations only ever come from the router itself, a bridge
/// forward only from the interpreter on record for the claimed
/// origin, and admin commands only from the configured admin; every
/// other caller gets `Unauthorized` with no effect.
pub fn execute(gw: &mut Gateway, info: MessageInfo, msg: ExecuteMsg) -> (r: Result<
    Response,
    ContractError,
>)
    requires
        old(gw).wf(),
    ensures
        final(gw).wf(),
        match msg {
            ExecuteMsg::IbcSetNetworkChannel { to, channel_id } => {
                if !admin_auth_spec(old(gw).config, info.sender@) {
                    r == Err::<Response, ContractError>(ContractError::Unauthorized) && final(gw).same_state(old(gw))
                } else {
                    &&& r is Ok
                    &&& final(gw).same_but_topology(old(gw))
                    &&& final(gw).networks@ == old(gw).networks@
                    &&& final(gw).network_to_network@ == old(gw).network_to_network@
                    &&& final(gw).channel_to_network@ == old(gw).channel_to_network@.insert(
                        channel_id@,
                        to,
                    )
                }
            },
            ExecuteMsg::ExecuteProgram { execute_program, tip } => final(gw).same_state(old(gw))
                && program_outcome(*old(gw), info, execute_program, tip, r),
            ExecuteMsg::ExecuteProgramPrivileged { call_origin, execute_program, tip } => {
                if !contract_auth_spec(old(gw).config, info.sender@) {
                    r == Err::<Response, ContractError>(ContractError::Unauthorized) && final(gw).same_state(old(gw))
                } else {
                    final(gw).same_state(old(gw)) && privileged_outcome(
                        *old(gw),
                        call_origin,
                        execute_program,
                        tip,
                        r,
                    )
                }
            },
            ExecuteMsg::BridgeForward(fwd) => {
                if !interpreter_auth_spec(
                    old(gw).interpreters_map(),
                    fwd.interpreter_origin@,
                    info.sender@,
                ) {
                    r == Err::<Response, ContractError>(ContractError::Unauthorized) && final(gw).same_state(old(gw))
                } else {
                    &&& final(gw).same_state(old(gw))
                    &&& r matches Ok(resp) && resp.events@.len() == 1
                    &&& fwd.msg.assets.0@.len() > 0 ==> (r->Ok_0).events@[0].attributes@[0].1@
                        == "bridge.forward"@
                    &&& fwd.msg.assets.0@.len() == 0 ==> (r->Ok_0).events@[0].attributes@[0].1@
                        == "bridge.forward.no_assets"@
                }
            },
            ExecuteMsg::RegisterAsset(rm) => {
                if !admin_auth_spec(old(gw).config, info.sender@) {
                    r == Err::<Response, ContractError>(ContractError::Unauthorized) && final(gw).same_state(old(gw))
                } else {
                    &&& final(gw).same_but_assets(old(gw))
                    &&& match register_spec(old(gw).assets_map(), rm.id@, rm.asset) {
                        Ok(m) => r is Ok && final(gw).assets_map() == m,
                        Err(e) => r == Err::<Response, ContractError>(e) && final(gw).assets_map()
                            == old(gw).assets_map(),
                    }
                }
            },
            ExecuteMsg::UnregisterAsset { asset_id } => {
                if !admin_auth_spec(old(gw).config, info.sender@) {
                    r == Err::<Response, ContractError>(ContractError::Unauthorized) && final(gw).same_state(old(gw))
                } else {
                    &&& final(gw).same_but_assets(old(gw))
                    &&& match unregister_spec(old(gw).assets_map(), asset_id@) {
                        Ok(m) => r is Ok && final(gw).assets_map() == m,
                        Err(e) => r == Err::<Response, ContractError>(e) && final(gw).assets_map()
                            == old(gw).assets_map(),
                    }
                }
            },
            ExecuteMsg::Ics20MessageHook(hook) => {
                if !wasm_hook_auth_spec(*old(gw), hook.from_network_id@, info.sender@) {
                    r == Err::<Response, ContractError>(ContractError::Unauthorized) && final(gw).same_state(old(gw))
                } else {
                    final(gw).same_state(old(gw)) && r is Ok
                }
            },
            ExecuteMsg::ForceNetwork(item) => {
                if !admin_auth_spec(old(gw).config, info.sender@) {
                    r == Err::<Response, ContractError>(ContractError::Unauthorized) && final(gw).same_state(old(gw))
                } else {
                    &&& r is Ok
                    &&& final(gw).same_but_topology(old(gw))
                    &&& final(gw).networks@ == old(gw).networks@.insert(item.id@, item)
                    &&& final(gw).network_to_network@ == old(gw).network_to_network@
                    &&& final(gw).channel_to_network@ == old(gw).channel_to_network@
                }
            },
            ExecuteMsg::ForceNetworkToNetwork(fm) => {
                if !admin_auth_spec(old(gw).config, info.sender@) {
                    r == Err::<Response, ContractError>(ContractError::Unauthorized) && final(gw).same_state(old(gw))
                } else {
                    &&& r is Ok
                    &&& final(gw).same_but_topology(old(gw))
                    &&& final(gw).networks@ == old(gw).networks@
                    &&& final(gw).network_to_network@ == old(gw).network_to_network@.insert(
                        (fm.from@, fm.to@),
                        fm.other,
                    )
                    &&& final(gw).channel_to_network@ == match fm.other.xcvm_channel {
                        Some(channel) => old(gw).channel_to_network@.insert(channel.id@, fm.to),
                        None => old(gw).channel_to_network@,
                    }
                }
            },
        },
{
    match msg {
        ExecuteMsg::IbcSetNetworkChannel { to, channel_id } => {
            let auth = match Admin::authorise(gw, &info) {
                Ok(auth) => auth,
                Err(e) => {
                    return Err(e);
                },
            };
            handle_ibc_set_network_channel(auth, gw, to, channel_id)
        },
        ExecuteMsg::ExecuteProgram { execute_program, tip } => handle_execute_program(
            gw,
            info,
            execute_program,
            tip,
        ),
        ExecuteMsg::ExecuteProgramPrivileged { call_origin, execute_program, tip } => {
            let auth = match Contract::authorise(gw, &info) {
                Ok(auth) => auth,
                Err(e) => {
                    return Err(e);
                },
            };
            handle_execute_program_privilleged(auth, gw, call_origin, execute_program, tip)
        },
        ExecuteMsg::BridgeForward(fwd) => {
            let auth = match InterpreterAuth::authorise(gw, &info, &fwd.interpreter_origin) {
                Ok(auth) => auth,
                Err(e) => {
                    return Err(e);
                },
            };
            if fwd.msg.assets.0.len() > 0 {
                handle_bridge_forward(auth, gw, fwd)
            } else {
                handle_bridge_forward_no_assets(auth, gw, fwd)
            }
        },
        ExecuteMsg::RegisterAsset(rm) => {
            let auth = match Admin::authorise(gw, &info) {
                Ok(auth) => auth,
                Err(e) => {
                    return Err(e);
                },
            };
            handle_register_asset(auth, gw, rm.id, rm.asset)
        },
        ExecuteMsg::UnregisterAsset { asset_id } => {
            let auth = match Admin::authorise(gw, &info) {
                Ok(auth) => auth,
                Err(e) => {
                    return Err(e);
                },
            };
            handle_unregister_asset(auth, gw, asset_id)
        },
        ExecuteMsg::Ics20MessageHook(hook) => {
            let auth = match WasmHook::authorise(gw, &info, hook.from_network_id) {
                Ok(auth) => auth,
                Err(e) => {
                    return Err(e);
                },
            };
            ics20_message_hook(auth, gw, hook)
        },
        ExecuteMsg::ForceNetwork(item) => {
            let auth = match Admin::authorise(gw, &info) {
                Ok(auth) => auth,
                Err(e) => {
                    return Err(e);
                },
            };
            force_network(auth, gw, item)
        },
        ExecuteMsg::ForceNetworkToNetwork(fm) => {
            let auth = match Admin::authorise(gw, &info) {
                Ok(auth) => auth,
                Err(e) => {
                    return Err(e);
                },
            };
            force_network_to_network(auth, gw, fm)
        },
    }
}

/// The router's query surface.
pub fn query(gw: &Gateway, msg: QueryMsg) -> (r: Result<LookupResponse, ContractError>)
    requires
        gw.wf(),
    ensures
        match msg {
            QueryMsg::LookupAsset { asset_id } => match lookup_spec(gw.assets_map(), asset_id@) {
                Ok(asset) => r matches Ok(resp) && resp.reference == asset,
                Err(e) => r == Err::<LookupResponse, ContractError>(e),
            },
        },
{
    match msg {
        QueryMsg::LookupAsset { asset_id } => query_lookup(gw, asset_id),
    }
}

} // verus!
