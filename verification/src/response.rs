use vstd::prelude::*;

use crate::events::Event;
use crate::msg::ExecuteMsg;
use crate::types::InterpreterOrigin;

verus! {

/// A call or transfer the host must run after the current handler
/// returns.  The host executes deferred actions in emission order.
#[derive(Clone, Debug, PartialEq, Eq)]
pub enum DeferredAction {
    /// Instantiate a fresh interpreter sandbox keyed by `origin`.
    Instantiate { admin: String, code_id: u64, origin: InterpreterOrigin },
    /// The router calling itself with another execute message.
    SelfDispatch { msg: ExecuteMsg },
    /// Dispatch a program to a provisioned interpreter.
    DispatchProgram { interpreter: String, tip: String, program: Vec<u8> },
    /// Move native coins from the router's custody to `to_address`.
    BankSend { to_address: String, denom: String, amount: u128 },
    /// Move virtual tokens held by the router to `recipient`.
    Cw20Transfer { contract: String, recipient: String, amount: u128 },
    /// Pull virtual tokens from `owner` into the router's custody.
    Cw20TransferFrom { contract: String, owner: String, recipient: String, amount: u128 },
}

/// A deferred action plus whether its success solicits a reply back
/// to the router before the next sibling action starts.
#[derive(Clone, Debug, PartialEq, Eq)]
pub struct SubMsg {
    pub action: DeferredAction,
    pub reply_on_success: bool,
}

impl SubMsg {
    /// An action with no reply solicited.
    pub open spec fn plain_spec(action: DeferredAction) -> SubMsg {
        SubMsg { action, reply_on_success: false }
    }
}

/// What a handler hands back: events describing what happened and the
/// deferred actions the host executes next, in order.
#[derive(Clone, Debug, PartialEq, Eq)]
pub struct Response {
    pub events: Vec<Event>,
    pub messages: Vec<SubMsg>,
}

impl Response {
    /// A response with no events and no deferred actions.
    pub fn new() -> (r: Response)
        ensures
            r.events@.len() == 0,
            r.messages@.len() == 0,
    {
        Response { events: Vec::new(), messages: Vec::new() }
    }
}

} // verus!
