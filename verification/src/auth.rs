use vstd::prelude::*;

use crate::error::ContractError;
use crate::state::{Config, Gateway, Interpreter as InterpreterRecord};
use crate::types::{InterpreterOrigin, MessageInfo, NetworkId, OriginV};

verus! {

/// The admin check: the caller is the configured admin address.
pub open spec fn admin_auth_spec(config: Config, sender: Seq<char>) -> bool {
    sender == config.admin@
}

/// The self-call check: the caller is the router itself.
pub open spec fn contract_auth_spec(config: Config, sender: Seq<char>) -> bool {
    sender == config.self_address@
}

/// The interpreter check: the caller is the address on record for the
/// claimed origin.
pub open spec fn interpreter_auth_spec(
    interpreters: Map<OriginV, InterpreterRecord>,
    origin: OriginV,
    sender: Seq<char>,
) -> bool {
    interpreters.contains_key(origin) && interpreters[origin].address@ == sender
}

/// The trusted-hook check: the caller is the configured hook and the
/// claimed originating network is on record.
pub open spec fn wasm_hook_auth_spec(gw: Gateway, network: u32, sender: Seq<char>) -> bool {
    match gw.config.ibc_ics_20_sender {
        Some(hook) => hook@ == sender && gw.networks_map().contains_key(network),
        None => false,
    }
}

/// Capability held only by the configured admin.  Constructible only
/// through [`Admin::authorise`].
pub struct Admin {
    _seal: (),
}

impl Admin {
    /// Grants the admin capability exactly when the caller is the
    /// configured admin; anyone else gets `Unauthorized`.
    pub fn authorise(gw: &Gateway, info: &MessageInfo) -> (r: Result<Admin, ContractError>)
        ensures
            r is Ok <==> admin_auth_spec(gw.config, info.sender@),
            r is Err ==> r == Err::<Admin, ContractError>(ContractError::Unauthorized),
    {
        if info.sender.eq(&gw.config.admin) {
            Ok(Admin { _seal: () })
        } else {
            Err(ContractError::Unauthorized)
        }
    }
}

/// Capability held only by the router itself: gates the privileged
/// continuation of a two-phase request so nobody can call it
/// directly.  Constructible only through [`Contract::authorise`].
pub struct Contract {
    _seal: (),
}

impl Contract {
    /// Grants the self-call capability exactly when the caller is the
    /// router's own address.
    pub fn authorise(gw: &Gateway, info: &MessageInfo) -> (r: Result<Contract, ContractError>)
        ensures
            r is Ok <==> contract_auth_spec(gw.config, info.sender@),
            r is Err ==> r == Err::<Contract, ContractError>(ContractError::Unauthorized),
    {
        if info.sender.eq(&gw.config.self_address) {
            Ok(Contract { _seal: () })
        } else {
            Err(ContractError::Unauthorized)
        }
    }
}

/// Capability held only by the interpreter the router provisioned for
/// a given origin.  Constructible only through
/// [`Interpreter::authorise`].
pub struct Interpreter {
    _seal: (),
}

impl Interpreter {
    /// Grants the interpreter capability exactly when the caller is
    /// the address on record for `origin`: an inbound bridge-forward
    /// must genuinely come from the sandbox the router provisioned.
    pub fn authorise(gw: &Gateway, info: &MessageInfo, origin: &InterpreterOrigin) -> (r: Result<
        Interpreter,
        ContractError,
    >)
        requires
            gw.wf(),
        ensures
            r is Ok <==> interpreter_auth_spec(gw.interpreters_map(), origin@, info.sender@),
            r is Err ==> r == Err::<Interpreter, ContractError>(ContractError::Unauthorized),
    {
        match gw.interpreters.get(origin) {
            Some(record) => {
                if info.sender.eq(&record.address) {
                    Ok(Interpreter { _seal: () })
                } else {
                    Err(ContractError::Unauthorized)
                }
            },
            None => Err(ContractError::Unauthorized),
        }
    }
}

/// Capability held only by the trusted hook of a registered network.
/// Constructible only through [`WasmHook::authorise`].
pub struct WasmHook {
    _seal: (),
}

impl WasmHook {
    /// Grants the hook capability exactly when the caller is the
    /// configured hook address and the claimed network is on record.
    pub fn authorise(gw: &Gateway, info: &MessageInfo, from_network: NetworkId) -> (r: Result<
        WasmHook,
        ContractError,
    >)
        requires
            gw.wf(),
        ensures
            r is Ok <==> wasm_hook_auth_spec(*gw, from_network@, info.sender@),
            r is Err ==> r == Err::<WasmHook, ContractError>(ContractError::Unauthorized),
    {
        match &gw.config.ibc_ics_20_sender {
            Some(hook) => {
                if info.sender.eq(hook) && gw.networks.contains(&from_network) {
                    Ok(WasmHook { _seal: () })
                } else {
                    Err(ContractError::Unauthorized)
                }
            },
            None => Err(ContractError::Unauthorized),
        }
    }
}

} // verus!
