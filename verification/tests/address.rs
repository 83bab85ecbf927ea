use metaboss::address::{get_metadata_pda, try_get_metadata_pda, AddressError, METAPLEX_PROGRAM_ID};
use metaboss::decode::account_request;
use solana_program::pubkey::Pubkey;

#[test]
fn program_id_is_an_address() {
    assert_eq!(
        account_request(METAPLEX_PROGRAM_ID),
        Ok(mpl_token_metadata::ID.to_bytes())
    );
}

#[test]
fn short_text_has_the_wrong_size() {
    assert_eq!(account_request("abc"), Err(AddressError::WrongSize));
    assert_eq!(account_request(""), Err(AddressError::WrongSize));
}

#[test]
fn long_text_has_the_wrong_size() {
    assert_eq!(
        account_request("111111111111111111111111111111111111111111111"),
        Err(AddressError::WrongSize)
    );
}

#[test]
fn text_outside_the_alphabet_is_invalid() {
    assert_eq!(account_request("0OIl"), Err(AddressError::Invalid));
    assert_eq!(account_request("\u{e9}"), Err(AddressError::Invalid));
}

#[test]
fn ones_are_the_zero_address() {
    assert_eq!(account_request("11111111111111111111111111111111"), Ok([0u8; 32]));
}

#[test]
fn metadata_account_is_derived_from_the_mint() {
    let mint = [7u8; 32];
    let (expected, _) = mpl_token_metadata::pda::find_metadata_account(&Pubkey::from(mint));
    assert_eq!(get_metadata_pda(mint), expected.to_bytes());
    assert_eq!(try_get_metadata_pda(mint), Some(expected.to_bytes()));
    assert_ne!(get_metadata_pda(mint), mint);
}
