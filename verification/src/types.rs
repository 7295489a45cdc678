use vstd::prelude::*;

use crate::table::TableKey;

verus! {

/// Abstract, globally-scoped identifier of a fungible asset.
#[derive(Clone, Copy, Debug, PartialEq, Eq, Structural)]
pub struct AssetId(pub u128);

/// Identifier of a chain in the cross-chain topology.
#[derive(Clone, Copy, Debug, PartialEq, Eq, Structural)]
pub struct NetworkId(pub u32);

impl View for AssetId {
    type V = u128;

    open spec fn view(&self) -> u128 {
        self.0
    }
}

impl TableKey for AssetId {
    fn key_eq(&self, other: &Self) -> (r: bool) {
        self.0 == other.0
    }
}

impl View for NetworkId {
    type V = u32;

    open spec fn view(&self) -> u32 {
        self.0
    }
}

impl TableKey for NetworkId {
    fn key_eq(&self, other: &Self) -> (r: bool) {
        self.0 == other.0
    }
}

impl TableKey for String {
    fn key_eq(&self, other: &Self) -> (r: bool) {
        self.eq(other)
    }
}

impl TableKey for InterpreterOrigin {
    fn key_eq(&self, other: &Self) -> (r: bool) {
        self.key_matches(other)
    }
}

/// A native coin attached to a message: denomination and amount.
#[derive(Clone, Debug, PartialEq, Eq)]
pub struct Coin {
    pub denom: String,
    pub amount: u128,
}

/// Who sent the current message and which native coins came with it.
#[derive(Clone, Debug)]
pub struct MessageInfo {
    pub sender: String,
    pub funds: Vec<Coin>,
}

/// Declared asset amounts a program consumes: `(asset, amount)` pairs
/// with unique asset ids; zero amounts are valid but moved by nobody.
#[derive(Clone, Debug, PartialEq, Eq)]
pub struct Funds(pub Vec<(AssetId, u128)>);

/// Verified statement of who initiated a program execution.  Produced
/// only by the authorization layer, never from untrusted input.
#[derive(Clone, Debug, PartialEq, Eq)]
pub enum CallOrigin {
    Local { user: String },
    Remote { network_id: NetworkId, user: String },
}

/// The `(network, user)` pair an execution is attributed to.
#[derive(Clone, Debug, PartialEq, Eq)]
pub struct UserOrigin {
    pub network_id: NetworkId,
    pub user_id: String,
}

/// Key identifying one execution sandbox: the attributed user origin
/// plus a caller-chosen salt.
#[derive(Clone, Debug, PartialEq, Eq)]
pub struct InterpreterOrigin {
    pub user_origin: UserOrigin,
    pub salt: Vec<u8>,
}

/// Mathematical value of an [`InterpreterOrigin`].
#[verifier::ext_equal]
pub struct OriginV {
    pub network_id: u32,
    pub user_id: Seq<char>,
    pub salt: Seq<u8>,
}

impl View for InterpreterOrigin {
    type V = OriginV;

    open spec fn view(&self) -> OriginV {
        OriginV {
            network_id: self.user_origin.network_id.0,
            user_id: self.user_origin.user_id@,
            salt: self.salt@,
        }
    }
}

impl CallOrigin {
    /// The user origin this call is attributed to; local calls are
    /// stamped with the router's own network id.
    pub open spec fn user_origin_spec(&self, this_network: NetworkId) -> UserOrigin {
        match *self {
            CallOrigin::Local { user } => UserOrigin { network_id: this_network, user_id: user },
            CallOrigin::Remote { network_id, user } => UserOrigin { network_id, user_id: user },
        }
    }

    /// Derives the user origin of this call, as
    /// [`Self::user_origin_spec`] states it.
    pub fn user(&self, this_network: NetworkId) -> (r: UserOrigin)
        ensures
            r == self.user_origin_spec(this_network),
    {
        match self {
            CallOrigin::Local { user } => UserOrigin { network_id: this_network, user_id: user.clone() },
            CallOrigin::Remote { network_id, user } => UserOrigin { network_id: *network_id, user_id: user.clone() },
        }
    }
}

impl InterpreterOrigin {
    /// Decides whether two origins denote the same sandbox key.
    pub fn key_matches(&self, other: &Self) -> (r: bool)
        ensures
            r == (self@ == other@),
    {
        let nets = self.user_origin.network_id == other.user_origin.network_id;
        let users = self.user_origin.user_id == other.user_origin.user_id;
        let salts = bytes_eq(&self.salt, &other.salt);
        proof {
            if nets && users && salts {
                assert(self@ =~= other@);
            }
        }
        nets && users && salts
    }
}

/// A value-preserving copy of a byte string.
pub fn copy_bytes(v: &Vec<u8>) -> (r: Vec<u8>)
    ensures
        r@ == v@,
{
    let mut r: Vec<u8> = Vec::new();
    let mut i: usize = 0;
    while i < v.len()
        invariant
            i <= v@.len(),
            r@ == v@.subrange(0, i as int),
        decreases v@.len() - i,
    {
        r.push(v[i]);
        proof {
            assert(r@ =~= v@.subrange(0, i as int + 1));
        }
        i = i + 1;
    }
    proof {
        assert(v@.subrange(0, v@.len() as int) =~= v@);
    }
    r
}

/// Decides equality of two byte strings.
pub fn bytes_eq(a: &Vec<u8>, b: &Vec<u8>) -> (r: bool)
    ensures
        r == (a@ == b@),
{
    if a.len() != b.len() {
        return false;
    }
    let mut i: usize = 0;
    while i < a.len()
        invariant
            i <= a.len(),
            a.len() == b.len(),
            forall|j: int| 0 <= j < i ==> a@[j] == b@[j],
        decreases a.len() - i,
    {
        if a[i] != b[i] {
            return false;
        }
        i = i + 1;
    }
    proof {
        assert(a@ =~= b@);
    }
    true
}

} // verus!
