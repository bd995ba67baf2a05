//! Account and contract addresses, held as their 32-byte keys.
use vstd::prelude::*;
use stellar_xdr::curr as xdr;

verus! {

/// An address: an ed25519 account key (`G...`) or a contract hash (`C...`).
#[derive(Clone, Copy, Debug, PartialEq, Eq)]
pub struct Address {
    /// Whether this is a contract address rather than an account.
    pub is_contract: bool,
    /// The account's public key, or the contract's hash.
    pub key: [u8; 32],
}

/// What a strkey string decodes to: whether it names a contract, and its
/// 32-byte payload; `None` where it is no account or contract strkey.
pub uninterp spec fn strkey_address(s: Seq<char>) -> Option<(bool, Seq<u8>)>;

/// Relies on `stellar_xdr::curr::ScAddress::from_str`, which decodes an
/// account (`G...`) or contract (`C...`) strkey, checksum included, and
/// refuses every other string.
#[verifier::external_body]
fn decode_strkey(s: &str) -> (r: Option<Address>)
    ensures
        match r {
            Some(a) => strkey_address(s@) == Some((a.is_contract, a.key@)),
            None => strkey_address(s@) is None,
        },
{
    match <xdr::ScAddress as core::str::FromStr>::from_str(s) {
        Ok(xdr::ScAddress::Account(xdr::AccountId(xdr::PublicKey::PublicKeyTypeEd25519(
            xdr::Uint256(k),
        )))) => Some(Address { is_contract: false, key: k }),
        Ok(xdr::ScAddress::Contract(xdr::Hash(h))) => Some(Address { is_contract: true, key: h }),
        Err(_) => None,
    }
}

impl Address {
    /// Parses a strkey address; `None` where `s` is not a well-formed account
    /// or contract address.
    pub fn from_strkey(s: &str) -> (r: Option<Address>)
        ensures
            match r {
                Some(a) => strkey_address(s@) == Some((a.is_contract, a.key@)),
                None => strkey_address(s@) is None,
            },
    {
        decode_strkey(s)
    }
}

} // verus!
