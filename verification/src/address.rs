//! Identities: the 32-byte public keys that name members, pools and boosts.

use std::str::FromStr;
use vstd::prelude::*;

verus! {

/// The 32 bytes that a text stands for as a public key in base 58, where it stands for any.
pub uninterp spec fn base58_pubkey(text: Seq<char>) -> Option<Seq<u8>>;

/// Calls `Pubkey::from_str` of `solana_program` and hands out the key's 32
/// bytes. Trusted: the call decodes base 58 and depends on the text alone, so
/// its result is the one named `base58_pubkey`; an error of either kind gives
/// `None`.
#[verifier::external_body]
fn pubkey_from_text(text: &str) -> (key: Option<[u8; 32]>)
    ensures
        match key {
            Some(bytes) => base58_pubkey(text@) == Some(bytes@),
            None => base58_pubkey(text@) is None,
        },
{
    match solana_program::pubkey::Pubkey::from_str(text) {
        Ok(key) => Some(key.to_bytes()),
        Err(_) => None,
    }
}

/// A 32-byte public key. Two addresses name the same party exactly when their bytes agree.
#[derive(Clone, Copy, Debug, PartialEq, Eq, Hash)]
pub struct Address {
    pub bytes: [u8; 32],
}

impl View for Address {
    type V = Seq<u8>;

    open spec fn view(&self) -> Seq<u8> {
        self.bytes@
    }
}

impl Address {
    /// The address with the given bytes.
    pub fn new(bytes: [u8; 32]) -> (a: Address)
        ensures
            a.bytes == bytes,
            a@ == bytes@,
    {
        Address { bytes }
    }

    /// The address's bytes.
    pub fn to_bytes(&self) -> (bytes: [u8; 32])
        ensures
            bytes == self.bytes,
    {
        self.bytes
    }

    /// Reads an address written in base 58.
    pub fn from_text(text: &str) -> (r: Option<Address>)
        ensures
            match r {
                Some(a) => base58_pubkey(text@) == Some(a@),
                None => base58_pubkey(text@) is None,
            },
    {
        Address::from_key(pubkey_from_text(text))
    }

    /// The address of a key that has been read, if one was read.
    pub fn from_key(key: Option<[u8; 32]>) -> (r: Option<Address>)
        ensures
            r is Some <==> key is Some,
            r matches Some(a) ==> a.bytes == key->Some_0,
    {
        match key {
            Some(bytes) => Some(Address::new(bytes)),
            None => None,
        }
    }

    /// Byte-wise comparison.
    pub fn same(&self, other: &Address) -> (r: bool)
        ensures
            r == (self@ == other@),
    {
        let mut i: usize = 0;
        while i < 32
            invariant
                i <= 32,
                forall|j: int| 0 <= j < i ==> self.bytes[j] == other.bytes[j],
            decreases 32 - i,
        {
            if self.bytes[i] != other.bytes[i] {
                return false;
            }
            i += 1;
        }
        assert(self@ =~= other@);
        true
    }
}

/// Addresses are determined by their bytes.
pub proof fn lemma_address_ext(a: Address, b: Address)
    ensures
        (a@ == b@) <==> (a == b),
{
    if a@ == b@ {
        assert(a.bytes@ =~= b.bytes@);
        assert(a.bytes == b.bytes);
    }
}

} // verus!
