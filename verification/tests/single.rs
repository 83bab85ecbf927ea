use metaboss::address::AddressError;
use metaboss::decode::{
    async_decode, async_decode_raw, data_or_error, decode, decode_from_metadata, decode_metadata,
    decode_raw, is_only_one_option, key_or_error, metadata_or_error, metadata_request, single_file,
    AccountError, DecodePlan,
};
use metaboss::error::DecodeError;
use metaboss::metadata::{CollectionDetails, Data, Key, Metadata, TokenStandard};
use metaboss::nft::decode_to_json;
use solana_program::pubkey::Pubkey;

fn account_of(mint: u8) -> Vec<u8> {
    let mut data = vec![4u8];
    data.extend_from_slice(&[1u8; 32]);
    data.extend_from_slice(&[mint; 32]);
    for text in ["N", "S", "U"] {
        data.extend_from_slice(&1u32.to_le_bytes());
        data.extend_from_slice(text.as_bytes());
    }
    data.extend_from_slice(&[0, 0, 0, 0, 0, 0]);
    data
}

fn mint_text(mint: u8) -> String {
    Pubkey::from([mint; 32]).to_string()
}

fn decoded(mint: u8) -> Metadata {
    decode(&mint_text(mint), Ok(account_of(mint))).unwrap()
}

#[test]
fn request_asks_for_the_metadata_account() {
    let (pda, _) = mpl_token_metadata::pda::find_metadata_account(&Pubkey::from([2u8; 32]));
    assert_eq!(metadata_request(&mint_text(2)), Ok(Some(pda.to_bytes())));
    assert_eq!(
        metadata_request("nonsense"),
        Err(DecodeError::PubkeyParseFailed("nonsense".to_string()))
    );
}

#[test]
fn raw_data_is_handed_through() {
    let mint = mint_text(2);
    assert_eq!(decode_raw(&mint, Ok(vec![1, 2, 3])), Ok(vec![1, 2, 3]));
    assert_eq!(async_decode_raw(&mint, Ok(vec![1, 2, 3])), Ok(vec![1, 2, 3]));
    assert_eq!(
        decode_raw(&mint, Err("timeout".to_string())),
        Err(DecodeError::NetworkError(mint.clone(), "timeout".to_string()))
    );
    assert_eq!(
        decode_raw("nonsense", Ok(vec![1])),
        Err(DecodeError::PubkeyParseFailed("nonsense".to_string()))
    );
}

#[test]
fn record_is_decoded() {
    let metadata = decoded(2);
    assert_eq!(metadata.mint, [2u8; 32]);
    assert_eq!(metadata.data.name, "N");
    assert_eq!(async_decode(mint_text(2), Ok(account_of(2))), Ok(decoded(2)));
}

#[test]
fn decode_gives_the_record_that_was_stored() {
    let mut stored = account_of(2);
    stored.extend_from_slice(&[1, 3, 0, 0, 1, 0]);
    stored.extend_from_slice(&9u64.to_le_bytes());
    let expected = Metadata {
        key: Key::MetadataV1,
        update_authority: [1u8; 32],
        mint: [2u8; 32],
        data: Data {
            name: "N".to_string(),
            symbol: "S".to_string(),
            uri: "U".to_string(),
            seller_fee_basis_points: 0,
            creators: None,
        },
        primary_sale_happened: false,
        is_mutable: false,
        edition_nonce: None,
        token_standard: Some(TokenStandard::NonFungibleEdition),
        collection: None,
        uses: None,
        collection_details: Some(CollectionDetails::V1 { size: 9 }),
    };
    for padding in [vec![], vec![0u8; 300], vec![255u8; 7]] {
        let mut data = stored.clone();
        data.extend_from_slice(&padding);
        assert_eq!(decode(&mint_text(2), Ok(data.clone())).as_ref(), Ok(&expected));
        assert_eq!(async_decode(mint_text(2), Ok(data.clone())).as_ref(), Ok(&expected));
        assert_eq!(decode_from_metadata(&mint_text(8), Ok(data)).as_ref(), Ok(&expected));
    }
}

#[test]
fn decode_reports_each_failure() {
    let mint = mint_text(2);
    assert_eq!(
        decode("nonsense", Ok(account_of(2))),
        Err(DecodeError::PubkeyParseFailed("nonsense".to_string()))
    );
    assert_eq!(
        decode(&mint, Err("timeout".to_string())),
        Err(DecodeError::NetworkError(mint.clone(), "timeout".to_string()))
    );
    assert_eq!(
        decode(&mint, Ok(vec![])),
        Err(DecodeError::DecodeMetadataFailed(
            mint.clone(),
            "Unexpected length of input".to_string()
        ))
    );
}

#[test]
fn metadata_account_is_decoded_directly() {
    let address = mint_text(8);
    assert_eq!(decode_from_metadata(&address, Ok(account_of(2))), Ok(decoded(2)));
    assert_eq!(
        decode_from_metadata("abc", Ok(account_of(2))),
        Err(AccountError::Address(AddressError::WrongSize))
    );
    assert_eq!(
        decode_from_metadata(&address, Err("timeout".to_string())),
        Err(AccountError::Decode(DecodeError::NetworkError(
            address.clone(),
            "timeout".to_string()
        )))
    );
    assert_eq!(
        decode_from_metadata(&address, Ok(vec![])),
        Err(AccountError::Decode(DecodeError::DecodeMetadataFailed(
            address.clone(),
            "Unexpected length of input".to_string()
        )))
    );
}

#[test]
fn outcomes_are_classified() {
    assert_eq!(key_or_error("m", Ok([3u8; 32])), Ok([3u8; 32]));
    assert_eq!(
        key_or_error("m", Err(AddressError::Invalid)),
        Err(DecodeError::PubkeyParseFailed("m".to_string()))
    );
    assert_eq!(data_or_error("m", Ok(vec![5])), Ok(vec![5]));
    assert_eq!(
        data_or_error("m", Err("e".to_string())),
        Err(DecodeError::NetworkError("m".to_string(), "e".to_string()))
    );
    assert_eq!(metadata_or_error("m", Ok(decoded(1))), Ok(decoded(1)));
    assert_eq!(
        metadata_or_error("m", Err("e".to_string())),
        Err(DecodeError::DecodeMetadataFailed("m".to_string(), "e".to_string()))
    );
}

#[test]
fn exactly_one_option() {
    assert!(is_only_one_option(&Some(1), &None::<bool>));
    assert!(is_only_one_option(&None::<u8>, &Some(true)));
    assert!(!is_only_one_option(&None::<u8>, &None::<bool>));
    assert!(!is_only_one_option(&Some(1), &Some(true)));
}

#[test]
fn options_decide_the_plan() {
    let account = "mint".to_string();
    let list = "list.json".to_string();
    let message =
        "Please specify either a mint account or a list of mint accounts, but not both."
            .to_string();
    assert_eq!(
        decode_metadata(Some(&account), None, false),
        Ok(DecodePlan::Single(account.clone()))
    );
    assert_eq!(
        decode_metadata(Some(&account), None, true),
        Ok(DecodePlan::Raw(account.clone()))
    );
    assert_eq!(
        decode_metadata(None, Some(&list), true),
        Ok(DecodePlan::List(list.clone()))
    );
    assert_eq!(decode_metadata(None, None, false), Err(message.clone()));
    assert_eq!(decode_metadata(Some(&account), Some(&list), false), Err(message));
}

#[test]
fn single_file_is_named_as_asked_for() {
    let (path, json) = single_file("Mint", decoded(2), true, "out");
    assert_eq!(path, "out/Mint.json");
    assert_eq!(json, decode_to_json(decoded(2), true));
}
