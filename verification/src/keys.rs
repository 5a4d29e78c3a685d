//! Account addresses.

use solana_program::pubkey::ParsePubkeyError;
use std::str::FromStr;
use vstd::prelude::*;

verus! {

/// The address of an account: 32 bytes.
#[derive(Clone, Copy, Debug, PartialEq, Eq)]
pub struct Pubkey {
    pub bytes: [u8; 32],
}

impl View for Pubkey {
    type V = Seq<u8>;

    open spec fn view(&self) -> Seq<u8> {
        self.bytes@
    }
}

/// Why a text is not an address, as `solana_program` reports it.
#[verifier::external_type_specification]
#[verifier::external_body]
pub struct ExParsePubkeyError(ParsePubkeyError);

/// Why a text was not read as an address.
#[derive(Debug)]
pub struct AddressError {
    pub cause: ParsePubkeyError,
}

/// The base-58 text that `solana_program` displays for the address with these bytes.
pub uninterp spec fn pubkey_text(bytes: Seq<u8>) -> Seq<char>;

/// What `solana_program` reads out of a base-58 text: the bytes of an address, or why there
/// are none.
pub uninterp spec fn pubkey_parsed(text: Seq<char>) -> Result<Seq<u8>, ParsePubkeyError>;

/// Calls `Pubkey::new_from_array` and the `Display` implementation of
/// `solana_program::pubkey::Pubkey`. Claims that the text depends on the bytes alone.
#[verifier::external_body]
fn display_pubkey(bytes: [u8; 32]) -> (text: String)
    ensures
        text@ == pubkey_text(bytes@),
{
    solana_program::pubkey::Pubkey::new_from_array(bytes).to_string()
}

/// Calls the `FromStr` implementation of `solana_program::pubkey::Pubkey`. Claims that the
/// bytes, or the error, depend on the text alone.
#[verifier::external_body]
fn parse_pubkey(text: &str) -> (r: Result<[u8; 32], ParsePubkeyError>)
    ensures
        match r {
            Ok(bytes) => pubkey_parsed(text@) == Ok::<Seq<u8>, ParsePubkeyError>(bytes@),
            Err(error) => pubkey_parsed(text@) == Err::<Seq<u8>, ParsePubkeyError>(error),
        },
{
    solana_program::pubkey::Pubkey::from_str(text).map(|key| key.to_bytes())
}

/// The text form of an address.
#[allow(non_snake_case)]
pub fn from_Pubkey(key: Pubkey) -> (text: String)
    ensures
        text@ == pubkey_text(key@),
{
    display_pubkey(key.bytes)
}

/// Reads an address from its text form.
pub fn from_str(text: &str) -> (r: Result<Pubkey, AddressError>)
    ensures
        match r {
            Ok(key) => pubkey_parsed(text@) == Ok::<Seq<u8>, ParsePubkeyError>(key@),
            Err(error) => pubkey_parsed(text@) == Err::<Seq<u8>, ParsePubkeyError>(error.cause),
        },
{
    match parse_pubkey(text) {
        Ok(bytes) => Ok(Pubkey { bytes }),
        Err(cause) => Err(AddressError { cause }),
    }
}

/// The view of an address shows its bytes.
pub proof fn law_view_shows_the_bytes(key: Pubkey)
    ensures
        key@ == key.bytes@,
        key@.len() == 32,
{
}

} // verus!
