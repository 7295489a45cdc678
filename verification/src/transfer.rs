use vstd::prelude::*;

use crate::error::ContractError;
use crate::msg::{Asset, AssetReference};
use crate::response::{DeferredAction, Response, SubMsg};
use crate::state::Gateway;
use crate::types::{AssetId, Coin, Funds};

verus! {

/// First coin of `attached` with the given denomination.
pub open spec fn find_coin(attached: Seq<Coin>, denom: Seq<char>) -> Option<Coin>
    decreases attached.len(),
{
    if attached.len() == 0 {
        None
    } else if attached[0].denom@ == denom {
        Some(attached[0])
    } else {
        find_coin(attached.drop_first(), denom)
    }
}

/// The deferred actions pulling `entries` from `user` into the
/// router's custody.  A native declaration is covered by the
/// attachment, which must match it exactly; a virtual one becomes a
/// transfer-from action.  The first failure wins and nothing is
/// planned.
pub open spec fn pull_plan(
    assets: Map<u128, Asset>,
    attached: Seq<Coin>,
    entries: Seq<(AssetId, u128)>,
    user: String,
    self_address: String,
) -> Result<Seq<DeferredAction>, ContractError>
    decreases entries.len(),
{
    if entries.len() == 0 {
        Ok(Seq::empty())
    } else {
        let id = entries[0].0;
        let amount = entries[0].1;
        if !assets.contains_key(id@) {
            Err(ContractError::UnsupportedAsset)
        } else {
            match assets[id@].local {
                AssetReference::Native { denom } => match find_coin(attached, denom@) {
                    Some(coin) => if coin.amount == amount {
                        pull_plan(assets, attached, entries.drop_first(), user, self_address)
                    } else {
                        Err(ContractError::InsufficientFunds)
                    },
                    None => Err(ContractError::InsufficientFunds),
                },
                AssetReference::Virtual { cw20_address } => match pull_plan(
                    assets,
                    attached,
                    entries.drop_first(),
                    user,
                    self_address,
                ) {
                    Ok(rest) => Ok(
                        seq![
                            DeferredAction::Cw20TransferFrom {
                                contract: cw20_address,
                                owner: user,
                                recipient: self_address,
                                amount,
                            },
                        ] + rest,
                    ),
                    Err(e) => Err(e),
                },
            }
        }
    }
}

/// The deferred actions forwarding `entries` from the router's
/// custody to `to`: zero amounts are skipped, native entries become
/// bank sends, virtual ones token transfers.
pub open spec fn push_plan(assets: Map<u128, Asset>, entries: Seq<(AssetId, u128)>, to: String)
    -> Result<Seq<DeferredAction>, ContractError>
    decreases entries.len(),
{
    if entries.len() == 0 {
        Ok(Seq::empty())
    } else {
        let id = entries[0].0;
        let amount = entries[0].1;
        if amount == 0 {
            push_plan(assets, entries.drop_first(), to)
        } else if !assets.contains_key(id@) {
            Err(ContractError::UnsupportedAsset)
        } else {
            match push_plan(assets, entries.drop_first(), to) {
                Ok(rest) => match assets[id@].local {
                    AssetReference::Native { denom } => Ok(
                        seq![DeferredAction::BankSend { to_address: to, denom, amount }] + rest,
                    ),
                    AssetReference::Virtual { cw20_address } => Ok(
                        seq![
                            DeferredAction::Cw20Transfer {
                                contract: cw20_address,
                                recipient: to,
                                amount,
                            },
                        ] + rest,
                    ),
                },
                Err(e) => Err(e),
            }
        }
    }
}

/// First attached coin with the given denomination, as
/// [`find_coin`] states it.
fn find_attached<'a>(funds: &'a Vec<Coin>, denom: &String) -> (r: Option<&'a Coin>)
    ensures
        match r {
            Some(c) => find_coin(funds@, denom@) == Some(*c),
            None => find_coin(funds@, denom@) is None,
        },
{
    let mut i: usize = 0;
    proof {
        assert(funds@.skip(0) =~= funds@);
    }
    while i < funds.len()
        invariant
            i <= funds@.len(),
            find_coin(funds@, denom@) == find_coin(funds@.skip(i as int), denom@),
        decreases funds@.len() - i,
    {
        proof {
            assert(funds@.skip(i as int)[0] == funds@[i as int]);
            assert(funds@.skip(i as int).drop_first() =~= funds@.skip(i as int + 1));
        }
        if funds[i].denom.eq(denom) {
            return Some(&funds[i]);
        }
        i = i + 1;
    }
    proof {
        assert(funds@.skip(funds@.len() as int).len() == 0);
    }
    None
}

/// Plans the pull of `assets` from `user`, as [`pull_plan`] states
/// it: on success the returned actions are exactly the plan, and on
/// failure nothing is planned at all.
pub fn transfer_from_user(
    gw: &Gateway,
    self_address: String,
    user: String,
    funds: &Vec<Coin>,
    assets: &Funds,
) -> (r: Result<Vec<DeferredAction>, ContractError>)
    requires
        gw.wf(),
    ensures
        match pull_plan(gw.assets_map(), funds@, assets.0@, user, self_address) {
            Ok(plan) => r matches Ok(v) && v@ == plan,
            Err(e) => r == Err::<Vec<DeferredAction>, ContractError>(e),
        },
{
    let ghost m = gw.assets_map();
    let ghost full = assets.0@;
    let mut out: Vec<DeferredAction> = Vec::new();
    let mut i: usize = 0;
    proof {
        assert(full.skip(0) =~= full);
        assert(out@ + pull_plan(m, funds@, full, user, self_address)->Ok_0 =~= pull_plan(
            m,
            funds@,
            full,
            user,
            self_address,
        )->Ok_0);
    }
    while i < assets.0.len()
        invariant
            gw.wf(),
            i <= full.len(),
            m == gw.assets_map(),
            full == assets.0@,
            pull_plan(m, funds@, full, user, self_address) == match pull_plan(
                m,
                funds@,
                full.skip(i as int),
                user,
                self_address,
            ) {
                Ok(rest) => Ok::<Seq<DeferredAction>, ContractError>(out@ + rest),
                Err(e) => Err::<Seq<DeferredAction>, ContractError>(e),
            },
        decreases full.len() - i,
    {
        let id = assets.0[i].0;
        let amount = assets.0[i].1;
        proof {
            assert(full.skip(i as int)[0] == full[i as int]);
            assert(full.skip(i as int).drop_first() =~= full.skip(i as int + 1));
        }
        let asset = match gw.assets.get(&id) {
            Some(asset) => asset,
            None => {
                return Err(ContractError::UnsupportedAsset);
            },
        };
        match &asset.local {
            AssetReference::Native { denom } => {
                let coin = match find_attached(funds, denom) {
                    Some(coin) => coin,
                    None => {
                        return Err(ContractError::InsufficientFunds);
                    },
                };
                if coin.amount != amount {
                    return Err(ContractError::InsufficientFunds);
                }
                proof {
                    let sk = full.skip(i as int);
                    let sk1 = full.skip(i as int + 1);
                    assert(sk[0] == (id, amount));
                    assert(m[id@].local == asset.local);
                    assert(find_coin(funds@, m[id@].local->Native_denom@) == Some(*coin));
                    assert(pull_plan(m, funds@, sk, user, self_address) == pull_plan(
                        m,
                        funds@,
                        sk1,
                        user,
                        self_address,
                    ));
                    assert(pull_plan(m, funds@, full, user, self_address) == match pull_plan(
                        m,
                        funds@,
                        sk1,
                        user,
                        self_address,
                    ) {
                        Ok(rest) => Ok::<Seq<DeferredAction>, ContractError>(out@ + rest),
                        Err(e) => Err::<Seq<DeferredAction>, ContractError>(e),
                    });
                }
            },
            AssetReference::Virtual { cw20_address } => {
                let action = DeferredAction::Cw20TransferFrom {
                    contract: cw20_address.clone(),
                    owner: user.clone(),
                    recipient: self_address.clone(),
                    amount,
                };
                let ghost prev_out = out@;
                out.push(action);
                proof {
                    let sk = full.skip(i as int);
                    let sk1 = full.skip(i as int + 1);
                    assert(sk[0] == (id, amount));
                    assert(m[id@].local == asset.local);
                    let act = out@.last();
                    assert(out@ == prev_out.push(act));
                    assert(pull_plan(m, funds@, sk, user, self_address) == match pull_plan(
                        m,
                        funds@,
                        sk1,
                        user,
                        self_address,
                    ) {
                        Ok(rest) => Ok::<Seq<DeferredAction>, ContractError>(seq![act] + rest),
                        Err(e) => Err::<Seq<DeferredAction>, ContractError>(e),
                    });
                    if pull_plan(m, funds@, sk1, user, self_address) is Ok {
                        let rest = pull_plan(m, funds@, sk1, user, self_address)->Ok_0;
                        assert(out@ + rest =~= prev_out + (seq![act] + rest));
                    }
                    assert(pull_plan(m, funds@, full, user, self_address) == match pull_plan(
                        m,
                        funds@,
                        sk1,
                        user,
                        self_address,
                    ) {
                        Ok(rest) => Ok::<Seq<DeferredAction>, ContractError>(out@ + rest),
                        Err(e) => Err::<Seq<DeferredAction>, ContractError>(e),
                    });
                }
            },
        }
        i = i + 1;
    }
    proof {
        assert(full.skip(full.len() as int).len() == 0);
        assert(out@ + Seq::<DeferredAction>::empty() =~= out@);
    }
    Ok(out)
}

/// Plans the forwarding of escrowed `funds` to the interpreter at
/// `interpreter_address`, as [`push_plan`] states it.  The response
/// carries one plain message per planned action, in order, and no
/// event.
pub fn send_funds_to_interpreter(gw: &Gateway, interpreter_address: String, funds: Funds) -> (r:
    Result<Response, ContractError>)
    requires
        gw.wf(),
    ensures
        match push_plan(gw.assets_map(), funds.0@, interpreter_address) {
            Ok(plan) => r matches Ok(resp) && resp.events@.len() == 0 && resp.messages@.len()
                == plan.len() && (forall|j: int|
                0 <= j < plan.len() ==> resp.messages@[j] == SubMsg::plain_spec(#[trigger] plan[j])),
            Err(e) => r == Err::<Response, ContractError>(e),
        },
{
    let ghost m = gw.assets_map();
    let ghost full = funds.0@;
    let mut out: Vec<SubMsg> = Vec::new();
    let mut i: usize = 0;
    proof {
        assert(full.skip(0) =~= full);
        assert(push_plan(m, full, interpreter_address) == match push_plan(
            m,
            full.skip(0),
            interpreter_address,
        ) {
            Ok(rest) => Ok::<Seq<DeferredAction>, ContractError>(actions_of(out@) + rest),
            Err(e) => Err::<Seq<DeferredAction>, ContractError>(e),
        }) by {
            if push_plan(m, full, interpreter_address) is Ok {
                assert(actions_of(out@) + push_plan(m, full, interpreter_address)->Ok_0 =~= push_plan(
                    m,
                    full,
                    interpreter_address,
                )->Ok_0);
            }
        }
    }
    while i < funds.0.len()
        invariant
            gw.wf(),
            i <= full.len(),
            m == gw.assets_map(),
            full == funds.0@,
            forall|j: int| 0 <= j < out@.len() ==> !((#[trigger] out@[j]).reply_on_success),
            push_plan(m, full, interpreter_address) == match push_plan(
                m,
                full.skip(i as int),
                interpreter_address,
            ) {
                Ok(rest) => Ok::<Seq<DeferredAction>, ContractError>(actions_of(out@) + rest),
                Err(e) => Err::<Seq<DeferredAction>, ContractError>(e),
            },
        decreases full.len() - i,
    {
        let id = funds.0[i].0;
        let amount = funds.0[i].1;
        proof {
            assert(full.skip(i as int)[0] == full[i as int]);
            assert(full.skip(i as int).drop_first() =~= full.skip(i as int + 1));
        }
        if amount != 0 {
            let asset = match gw.assets.get(&id) {
                Some(asset) => asset,
                None => {
                    return Err(ContractError::UnsupportedAsset);
                },
            };
            let action = match &asset.local {
                AssetReference::Native { denom } => DeferredAction::BankSend {
                    to_address: interpreter_address.clone(),
                    denom: denom.clone(),
                    amount,
                },
                AssetReference::Virtual { cw20_address } => DeferredAction::Cw20Transfer {
                    contract: cw20_address.clone(),
                    recipient: interpreter_address.clone(),
                    amount,
                },
            };
            let ghost prev_out = out@;
            out.push(SubMsg { action, reply_on_success: false });
            proof {
                let sk = full.skip(i as int);
                let sk1 = full.skip(i as int + 1);
                assert(sk[0] == (id, amount));
                assert(m[id@].local == asset.local);
                let act = out@.last().action;
                assert(out@ == prev_out.push(out@.last()));
                assert(actions_of(out@) =~= actions_of(prev_out).push(act));
                assert(push_plan(m, sk, interpreter_address) == match push_plan(
                    m,
                    sk1,
                    interpreter_address,
                ) {
                    Ok(rest) => Ok::<Seq<DeferredAction>, ContractError>(seq![act] + rest),
                    Err(e) => Err::<Seq<DeferredAction>, ContractError>(e),
                });
                if push_plan(m, sk1, interpreter_address) is Ok {
                    let rest = push_plan(m, sk1, interpreter_address)->Ok_0;
                    assert(actions_of(out@) + rest =~= actions_of(prev_out) + (seq![act] + rest));
                }
                assert(push_plan(m, full, interpreter_address) == match push_plan(
                    m,
                    sk1,
                    interpreter_address,
                ) {
                    Ok(rest) => Ok::<Seq<DeferredAction>, ContractError>(actions_of(out@) + rest),
                    Err(e) => Err::<Seq<DeferredAction>, ContractError>(e),
                });
            }
        } else {
            proof {
                let sk = full.skip(i as int);
                let sk1 = full.skip(i as int + 1);
                assert(sk[0] == (id, amount));
                assert(push_plan(m, sk, interpreter_address) == push_plan(
                    m,
                    sk1,
                    interpreter_address,
                ));
                assert(push_plan(m, full, interpreter_address) == match push_plan(
                    m,
                    sk1,
                    interpreter_address,
                ) {
                    Ok(rest) => Ok::<Seq<DeferredAction>, ContractError>(actions_of(out@) + rest),
                    Err(e) => Err::<Seq<DeferredAction>, ContractError>(e),
                });
            }
        }
        i = i + 1;
    }
    proof {
        assert(full.skip(full.len() as int).len() == 0);
        assert(actions_of(out@) + Seq::<DeferredAction>::empty() =~= actions_of(out@));
        if push_plan(m, full, interpreter_address) is Ok {
            let plan = push_plan(m, full, interpreter_address)->Ok_0;
            assert(plan == actions_of(out@));
            assert forall|j: int| 0 <= j < plan.len() implies out@[j] == SubMsg::plain_spec(
                #[trigger] plan[j],
            ) by {
                lemma_actions_of(out@, j);
            }
        }
    }
    Ok(Response { events: Vec::new(), messages: out })
}

/// The bare actions of a message list.
pub open spec fn actions_of(messages: Seq<SubMsg>) -> Seq<DeferredAction> {
    messages.map_values(|m: SubMsg| m.action)
}

proof fn lemma_actions_of(messages: Seq<SubMsg>, j: int)
    requires
        0 <= j < messages.len(),
        forall|k: int| 0 <= k < messages.len() ==> !((#[trigger] messages[k]).reply_on_success),
    ensures
        messages[j] == SubMsg::plain_spec(actions_of(messages)[j]),
{
}

// ----------------------------------------------------------- conservation

/// Sum of the declared amounts of a funds list.
pub open spec fn funds_total(entries: Seq<(AssetId, u128)>) -> int
    decreases entries.len(),
{
    if entries.len() == 0 {
        0
    } else {
        entries[0].1 + funds_total(entries.drop_first())
    }
}

/// The amount one deferred action moves.
pub open spec fn action_amount(action: DeferredAction) -> int {
    match action {
        DeferredAction::BankSend { amount, .. } => amount as int,
        DeferredAction::Cw20Transfer { amount, .. } => amount as int,
        DeferredAction::Cw20TransferFrom { amount, .. } => amount as int,
        _ => 0,
    }
}

/// Sum of the amounts a list of deferred actions moves.
pub open spec fn actions_total(actions: Seq<DeferredAction>) -> int
    decreases actions.len(),
{
    if actions.len() == 0 {
        0
    } else {
        action_amount(actions[0]) + actions_total(actions.drop_first())
    }
}

/// Sum of the declared amounts that resolve to native assets: these
/// stay covered by the attachment and need no pull action.
pub open spec fn native_total(assets: Map<u128, Asset>, entries: Seq<(AssetId, u128)>) -> int
    decreases entries.len(),
{
    if entries.len() == 0 {
        0
    } else {
        let rest = native_total(assets, entries.drop_first());
        if assets.contains_key(entries[0].0@) && assets[entries[0].0@].local is Native {
            entries[0].1 + rest
        } else {
            rest
        }
    }
}

/// Fund conservation: when a pull plan succeeds, the amounts its
/// actions move plus the native amounts already covered by the
/// attachment equal the declared total.
pub proof fn lemma_pull_conservation(
    assets: Map<u128, Asset>,
    attached: Seq<Coin>,
    entries: Seq<(AssetId, u128)>,
    user: String,
    self_address: String,
)
    requires
        pull_plan(assets, attached, entries, user, self_address) is Ok,
    ensures
        actions_total(pull_plan(assets, attached, entries, user, self_address)->Ok_0)
            + native_total(assets, entries) == funds_total(entries),
    decreases entries.len(),
{
    if entries.len() > 0 {
        let rest = entries.drop_first();
        lemma_pull_conservation(assets, attached, rest, user, self_address);
        let id = entries[0].0;
        let amount = entries[0].1;
        match assets[id@].local {
            AssetReference::Native { denom } => {
            },
            AssetReference::Virtual { cw20_address } => {
                let action = DeferredAction::Cw20TransferFrom {
                    contract: cw20_address,
                    owner: user,
                    recipient: self_address,
                    amount,
                };
                let rest_plan = pull_plan(assets, attached, rest, user, self_address)->Ok_0;
                let plan = seq![action] + rest_plan;
                assert(plan[0] == action);
                assert(plan.drop_first() =~= rest_plan);
                assert(actions_total(plan) == amount + actions_total(rest_plan));
            },
        }
    }
}

/// A push plan never carries a useless transfer: every planned
/// action moves a positive amount.
pub proof fn lemma_push_skips_zero(
    assets: Map<u128, Asset>,
    entries: Seq<(AssetId, u128)>,
    to: String,
)
    requires
        push_plan(assets, entries, to) is Ok,
    ensures
        forall|j: int|
            0 <= j < push_plan(assets, entries, to)->Ok_0.len() ==> action_amount(
                #[trigger] push_plan(assets, entries, to)->Ok_0[j],
            ) > 0,
    decreases entries.len(),
{
    if entries.len() > 0 {
        let rest = entries.drop_first();
        let amount = entries[0].1;
        if amount == 0 {
            lemma_push_skips_zero(assets, rest, to);
        } else {
            lemma_push_skips_zero(assets, rest, to);
            let plan = push_plan(assets, entries, to)->Ok_0;
            let rest_plan = push_plan(assets, rest, to)->Ok_0;
            assert(plan.drop_first() =~= rest_plan);
            assert(action_amount(plan[0]) == amount);
            assert forall|j: int| 0 <= j < plan.len() implies action_amount(#[trigger] plan[j])
                > 0 by {
                if j > 0 {
                    assert(plan[j] == rest_plan[j - 1]);
                }
            }
        }
    }
}

} // verus!
