//! Identities of the parties that call into a ledger.

use vstd::prelude::*;
use vstd::bytes::{
    lemma_auto_spec_u128_to_from_le_bytes, spec_u128_from_le_bytes, spec_u128_to_le_bytes,
    u128_from_le_bytes, u128_to_le_bytes,
};
use vstd::slice::slice_subrange;

verus! {

/// The length of the key of an identity, in bytes.
pub const KEY_LEN: usize = 32;

/// What stands behind an identity.
#[derive(Clone, Copy, Debug, PartialEq, Eq, Hash, Structural)]
pub enum AccountKind {
    /// A key pair held by a person or a service.
    Account,
    /// A contract deployed on the ledger.
    Contract,
}

/// An identity: its kind and its key of 32 bytes, held as two halves.
///
/// `hi` is the first half of the key and `lo` the second, each read as a
/// little-endian number. Two identities are the same party exactly when kind
/// and both halves agree.
#[derive(Clone, Copy, Debug, PartialEq, Eq, Hash, Structural)]
pub struct AccountId {
    pub kind: AccountKind,
    pub hi: u128,
    pub lo: u128,
}

impl AccountId {
    /// The key of the identity.
    pub open spec fn key(&self) -> Seq<u8> {
        spec_u128_to_le_bytes(self.hi) + spec_u128_to_le_bytes(self.lo)
    }

    /// The identity of the given kind with the given key of 32 bytes.
    pub open spec fn of_key(kind: AccountKind, key: Seq<u8>) -> AccountId {
        AccountId {
            kind,
            hi: spec_u128_from_le_bytes(key.subrange(0, 16)),
            lo: spec_u128_from_le_bytes(key.subrange(16, 32)),
        }
    }

    /// The identity of the key pair with the given halves of its key.
    pub fn account(hi: u128, lo: u128) -> (id: AccountId)
        ensures
            id == (AccountId { kind: AccountKind::Account, hi, lo }),
    {
        AccountId { kind: AccountKind::Account, hi, lo }
    }

    /// The identity of the contract with the given halves of its hash.
    pub fn contract(hi: u128, lo: u128) -> (id: AccountId)
        ensures
            id == (AccountId { kind: AccountKind::Contract, hi, lo }),
    {
        AccountId { kind: AccountKind::Contract, hi, lo }
    }

    /// The identity of the given kind with the given key, or `None` where the
    /// key is not 32 bytes long.
    pub fn from_key(kind: AccountKind, key: &[u8]) -> (id: Option<AccountId>)
        ensures
            key@.len() == KEY_LEN ==> id == Some(AccountId::of_key(kind, key@)),
            key@.len() != KEY_LEN ==> id is None,
    {
        if key.len() != KEY_LEN {
            return None;
        }
        let hi: u128 = u128_from_le_bytes(slice_subrange(key, 0, 16));
        let lo: u128 = u128_from_le_bytes(slice_subrange(key, 16, 32));
        Some(AccountId { kind, hi, lo })
    }

    /// The key of the identity, 32 bytes long.
    pub fn to_key(&self) -> (key: Vec<u8>)
        ensures
            key@ == self.key(),
            key@.len() == KEY_LEN,
    {
        let mut key: Vec<u8> = u128_to_le_bytes(self.hi);
        let second: Vec<u8> = u128_to_le_bytes(self.lo);
        let mut k: usize = 0;
        while k < 16
            invariant
                k <= 16,
                second@.len() == 16,
                second@ == spec_u128_to_le_bytes(self.lo),
                key@ == spec_u128_to_le_bytes(self.hi) + second@.subrange(0, k as int),
            decreases 16 - k,
        {
            key.push(second[k]);
            proof {
                assert(second@.subrange(0, k + 1) =~= second@.subrange(0, k as int).push(
                    second@[k as int],
                ));
            }
            k = k + 1;
        }
        proof {
            assert(second@.subrange(0, 16) =~= second@);
            lemma_auto_spec_u128_to_from_le_bytes();
        }
        key
    }
}

/// An identity is given by its kind and its key: the key of an identity is 32
/// bytes long and leads back to the identity, and the identity made from a key
/// of 32 bytes has that key.
pub proof fn lemma_key_identifies(id: AccountId, kind: AccountKind, key: Seq<u8>)
    ensures
        id.key().len() == KEY_LEN,
        AccountId::of_key(id.kind, id.key()) == id,
        key.len() == KEY_LEN ==> AccountId::of_key(kind, key).key() == key,
{
    lemma_auto_spec_u128_to_from_le_bytes();
    let first = spec_u128_to_le_bytes(id.hi);
    let second = spec_u128_to_le_bytes(id.lo);
    assert(id.key().subrange(0, 16) =~= first);
    assert(id.key().subrange(16, 32) =~= second);
    if key.len() == KEY_LEN {
        assert(key.subrange(0, 16) + key.subrange(16, 32) =~= key);
    }
}

} // verus!
