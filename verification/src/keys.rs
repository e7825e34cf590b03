//! Solana public keys as the configuration writes them: Base58 text of 32 bytes.
use vstd::prelude::*;
use std::str::FromStr;

verus! {

/// The 32 bytes of the public key that a Base58 text names, if it names one.
pub uninterp spec fn pubkey_from_text(text: Seq<char>) -> Option<Seq<u8>>;

/// The Base58 text of a public key.
pub uninterp spec fn pubkey_text(bytes: Seq<u8>) -> Seq<char>;

/// Parses a public key with `solana_sdk::pubkey::Pubkey::from_str`. Trusted:
/// the result is named by `pubkey_from_text`, and a key is always 32 bytes.
#[verifier::external_body]
pub(crate) fn parse_pubkey(text: &str) -> (r: Option<Vec<u8>>)
    ensures
        r.is_some() == pubkey_from_text(text@).is_some(),
        r.is_some() ==> pubkey_from_text(text@) == Some(r.unwrap()@) && r.unwrap()@.len() == 32,
{
    solana_sdk::pubkey::Pubkey::from_str(text).ok().map(|k| k.to_bytes().to_vec())
}

/// Writes a public key as `Pubkey`'s `Display` does. Trusted: the result is
/// named by `pubkey_text`.
#[verifier::external_body]
pub(crate) fn format_pubkey(bytes: &Vec<u8>) -> (s: String)
    requires
        bytes@.len() == 32,
    ensures
        s@ == pubkey_text(bytes@),
{
    let mut arr = [0u8; 32];
    arr.copy_from_slice(bytes.as_slice());
    solana_sdk::pubkey::Pubkey::new_from_array(arr).to_string()
}

} // verus!
