use metaboss::decode::account_request;
use metaboss::json::JsonValue;
use metaboss::metadata::{
    Collection, Creator, Data, Key, Metadata, TokenStandard, UseMethod, Uses,
};
use metaboss::nft::{
    check_metadata_written, check_written, decode_to_json, json_file_path, render_metadata, write_metadata_to_file,
    JSONCollection, JSONCreator, JSONUses,
};
use solana_program::pubkey::Pubkey;

fn address_string(byte: u8) -> String {
    Pubkey::from([byte; 32]).to_string()
}

fn record() -> Metadata {
    Metadata {
        key: Key::MetadataV1,
        update_authority: [1u8; 32],
        mint: [2u8; 32],
        data: Data {
            name: "\0Pen\0guin\0\0".to_string(),
            symbol: "NOOT\0".to_string(),
            uri: "https://example.com/1.json\0\0\0".to_string(),
            seller_fee_basis_points: 500,
            creators: Some(vec![Creator { address: [3u8; 32], verified: true, share: 100 }]),
        },
        primary_sale_happened: true,
        is_mutable: false,
        edition_nonce: Some(254),
        token_standard: Some(TokenStandard::NonFungible),
        collection: Some(Collection { verified: true, key: [5u8; 32] }),
        uses: Some(Uses { use_method: UseMethod::Single, remaining: 1, total: 3 }),
        collection_details: None,
    }
}

fn bare_record() -> Metadata {
    Metadata {
        key: Key::Uninitialized,
        update_authority: [0u8; 32],
        mint: [9u8; 32],
        data: Data {
            name: "\0\0\0".to_string(),
            symbol: String::new(),
            uri: "u".to_string(),
            seller_fee_basis_points: 0,
            creators: None,
        },
        primary_sale_happened: false,
        is_mutable: true,
        edition_nonce: None,
        token_standard: None,
        collection: None,
        uses: None,
        collection_details: None,
    }
}

fn text(value: &str) -> JsonValue {
    JsonValue::Text(value.to_string())
}

fn object(fields: Vec<(&str, JsonValue)>) -> JsonValue {
    JsonValue::Object(fields.into_iter().map(|(k, v)| (k.to_string(), v)).collect())
}

fn short_form() -> JsonValue {
    object(vec![
        ("name", text("Pen\0guin")),
        ("symbol", text("NOOT")),
        ("seller_fee_basis_points", JsonValue::Number(500)),
        ("uri", text("https://example.com/1.json")),
        (
            "creators",
            JsonValue::Array(vec![object(vec![
                ("address", text(&address_string(3))),
                ("verified", JsonValue::Bool(true)),
                ("share", JsonValue::Number(100)),
            ])]),
        ),
    ])
}

#[test]
fn record_is_rendered() {
    let rendered = render_metadata(&record());
    assert_eq!(rendered.key, "MetadataV1");
    assert_eq!(rendered.update_authority, address_string(1));
    assert_eq!(rendered.mint_account, address_string(2));
    assert_eq!(rendered.name, "Pen\0guin");
    assert_eq!(rendered.symbol, "NOOT");
    assert_eq!(rendered.uri, "https://example.com/1.json");
    assert_eq!(
        rendered.creators,
        vec![JSONCreator { address: address_string(3), verified: true, share: 100 }]
    );
    assert_eq!(rendered.token_standard, Some("NonFungible".to_string()));
    assert_eq!(
        rendered.collection,
        Some(JSONCollection { verified: true, key: address_string(5) })
    );
    assert_eq!(
        rendered.uses,
        Some(JSONUses { use_method: "Single".to_string(), remaining: 1, total: 3 })
    );
}

#[test]
fn short_form_has_the_data_alone() {
    assert_eq!(decode_to_json(record(), false), short_form());
}

#[test]
fn full_form_holds_the_short_form() {
    let expected = object(vec![
        ("key", text("MetadataV1")),
        ("update_authority", text(&address_string(1))),
        ("mint_account", text(&address_string(2))),
        ("nft_data", short_form()),
        ("primary_sale_happened", JsonValue::Bool(true)),
        ("is_mutable", JsonValue::Bool(false)),
        ("edition_nonce", JsonValue::Number(254)),
        ("token_standard", text("NonFungible")),
        (
            "collection",
            object(vec![
                ("verified", JsonValue::Bool(true)),
                ("key", text(&address_string(5))),
            ]),
        ),
        (
            "uses",
            object(vec![
                ("use_method", text("Single")),
                ("remaining", JsonValue::Number(1)),
                ("total", JsonValue::Number(3)),
            ]),
        ),
    ]);
    assert_eq!(decode_to_json(record(), true), expected);
}

#[test]
fn missing_parts_are_null_or_empty() {
    let expected = object(vec![
        ("key", text("Uninitialized")),
        ("update_authority", text("11111111111111111111111111111111")),
        ("mint_account", text(&address_string(9))),
        (
            "nft_data",
            object(vec![
                ("name", text("")),
                ("symbol", text("")),
                ("seller_fee_basis_points", JsonValue::Number(0)),
                ("uri", text("u")),
                ("creators", JsonValue::Array(vec![])),
            ]),
        ),
        ("primary_sale_happened", JsonValue::Bool(false)),
        ("is_mutable", JsonValue::Bool(true)),
        ("edition_nonce", JsonValue::Null),
        ("token_standard", JsonValue::Null),
        ("collection", JsonValue::Null),
        ("uses", JsonValue::Null),
    ]);
    assert_eq!(decode_to_json(bare_record(), true), expected);
}

#[test]
fn file_is_named_after_the_mint() {
    let (path, json) = write_metadata_to_file(record(), false, "out".to_string());
    assert_eq!(path, format!("out/{}.json", address_string(2)));
    assert_eq!(json, short_form());
    let (other, _) = write_metadata_to_file(bare_record(), false, "out".to_string());
    assert_ne!(path, other);
}

#[test]
fn path_joins_directory_and_name() {
    assert_eq!(json_file_path("a/b", "c"), "a/b/c.json");
}

#[test]
fn failed_steps_of_writing_are_reported() {
    assert_eq!(check_written("M", Ok(()), Ok(())), Ok(()));
    assert_eq!(
        check_written("M", Err("no space".to_string()), Ok(())),
        Err("Failed to create JSON file for mint account: M, error: no space".to_string())
    );
    assert_eq!(
        check_written("M", Ok(()), Err("closed".to_string())),
        Err("Failed to write JSON file for mint account: M, error: closed".to_string())
    );
}

#[test]
fn failed_write_names_the_mint_of_the_record() {
    let mint = record().mint;
    assert_eq!(check_metadata_written(mint, Ok(()), Ok(())), Ok(()));
    assert_eq!(
        check_metadata_written(mint, Err("no space".to_string()), Ok(())),
        Err(format!(
            "Failed to create JSON file for mint account: {}, error: no space",
            address_string(2)
        ))
    );
    assert_eq!(
        check_metadata_written(mint, Ok(()), Err("closed".to_string())),
        Err(format!(
            "Failed to write JSON file for mint account: {}, error: closed",
            address_string(2)
        ))
    );
}

#[test]
fn rendered_addresses_read_back() {
    let rendered = render_metadata(&record());
    assert_eq!(account_request(&rendered.mint_account), Ok([2u8; 32]));
    assert_eq!(account_request(&rendered.update_authority), Ok([1u8; 32]));
    assert_eq!(account_request(&rendered.creators[0].address), Ok([3u8; 32]));
    assert_eq!(account_request(&rendered.collection.unwrap().key), Ok([5u8; 32]));
}
