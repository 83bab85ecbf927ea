use metaboss::metadata::{
    deserialize_metadata, parse_key, parse_token_standard, parse_use_method, Collection, CollectionDetails,
    Creator, Data, Key, Metadata, TokenStandard, UseMethod, Uses,
};

fn push_text(data: &mut Vec<u8>, text: &str) {
    data.extend_from_slice(&(text.len() as u32).to_le_bytes());
    data.extend_from_slice(text.as_bytes());
}

fn head(key: u8) -> Vec<u8> {
    let mut data = vec![key];
    data.extend_from_slice(&[1u8; 32]);
    data.extend_from_slice(&[2u8; 32]);
    push_text(&mut data, "Penguin\0\0");
    push_text(&mut data, "NOOT");
    push_text(&mut data, "https://example.com/1.json\0");
    data.extend_from_slice(&500u16.to_le_bytes());
    data
}

fn full_account(key: u8, standard: u8, method: u8) -> Vec<u8> {
    let mut data = head(key);
    data.push(1);
    data.extend_from_slice(&2u32.to_le_bytes());
    data.extend_from_slice(&[3u8; 32]);
    data.extend_from_slice(&[1, 60]);
    data.extend_from_slice(&[4u8; 32]);
    data.extend_from_slice(&[0, 40]);
    data.extend_from_slice(&[1, 0]);
    data.extend_from_slice(&[1, 254]);
    data.extend_from_slice(&[1, standard]);
    data.extend_from_slice(&[1, 1]);
    data.extend_from_slice(&[5u8; 32]);
    data.extend_from_slice(&[1, method]);
    data.extend_from_slice(&10u64.to_le_bytes());
    data.extend_from_slice(&20u64.to_le_bytes());
    data.extend_from_slice(&[1, 0]);
    data.extend_from_slice(&77u64.to_le_bytes());
    data
}

fn full_record() -> Metadata {
    Metadata {
        key: Key::MetadataV1,
        update_authority: [1u8; 32],
        mint: [2u8; 32],
        data: Data {
            name: "Penguin\0\0".to_string(),
            symbol: "NOOT".to_string(),
            uri: "https://example.com/1.json\0".to_string(),
            seller_fee_basis_points: 500,
            creators: Some(vec![
                Creator { address: [3u8; 32], verified: true, share: 60 },
                Creator { address: [4u8; 32], verified: false, share: 40 },
            ]),
        },
        primary_sale_happened: true,
        is_mutable: false,
        edition_nonce: Some(254),
        token_standard: Some(TokenStandard::Fungible),
        collection: Some(Collection { verified: true, key: [5u8; 32] }),
        uses: Some(Uses { use_method: UseMethod::Multiple, remaining: 10, total: 20 }),
        collection_details: Some(CollectionDetails::V1 { size: 77 }),
    }
}

#[test]
fn full_record_is_read() {
    assert_eq!(deserialize_metadata(&full_account(4, 2, 1)), Ok(full_record()));
}

#[test]
fn bytes_behind_the_record_are_ignored() {
    let mut data = full_account(4, 2, 1);
    data.extend_from_slice(&[0u8; 100]);
    assert_eq!(deserialize_metadata(&data), Ok(full_record()));
}

#[test]
fn texts_are_stored_as_utf8() {
    let mut data = vec![4u8];
    data.extend_from_slice(&[1u8; 32]);
    data.extend_from_slice(&[2u8; 32]);
    data.extend_from_slice(&[3, 0, 0, 0, 0xE2, 0x82, 0xAC]);
    data.extend_from_slice(&[2, 0, 0, 0, 0xC3, 0xA9]);
    data.extend_from_slice(&[0, 0, 0, 0]);
    data.extend_from_slice(&[0x34, 0x12]);
    data.extend_from_slice(&[0; 8]);
    let metadata = deserialize_metadata(&data).unwrap();
    assert_eq!(metadata.data.name, "\u{20AC}");
    assert_eq!(metadata.data.symbol, "\u{E9}");
    assert_eq!(metadata.data.uri, "");
    assert_eq!(metadata.data.seller_fee_basis_points, 0x1234);
}

#[test]
fn every_key_is_read() {
    let keys = [
        (Key::Uninitialized, "Uninitialized"),
        (Key::EditionV1, "EditionV1"),
        (Key::MasterEditionV1, "MasterEditionV1"),
        (Key::ReservationListV1, "ReservationListV1"),
        (Key::MetadataV1, "MetadataV1"),
        (Key::ReservationListV2, "ReservationListV2"),
        (Key::MasterEditionV2, "MasterEditionV2"),
        (Key::EditionMarker, "EditionMarker"),
        (Key::UseAuthorityRecord, "UseAuthorityRecord"),
        (Key::CollectionAuthorityRecord, "CollectionAuthorityRecord"),
    ];
    for (i, (key, name)) in keys.iter().enumerate() {
        let metadata = deserialize_metadata(&full_account(i as u8, 0, 0)).unwrap();
        assert_eq!(metadata.key, *key);
        assert_eq!(parse_key(metadata.key), *name);
    }
}

#[test]
fn every_token_standard_is_read() {
    let standards = [
        (TokenStandard::NonFungible, "NonFungible"),
        (TokenStandard::FungibleAsset, "FungibleAsset"),
        (TokenStandard::Fungible, "Fungible"),
        (TokenStandard::NonFungibleEdition, "NonFungibleEdition"),
    ];
    for (i, (standard, name)) in standards.iter().enumerate() {
        let metadata = deserialize_metadata(&full_account(4, i as u8, 0)).unwrap();
        assert_eq!(metadata.token_standard, Some(*standard));
        assert_eq!(parse_token_standard(*standard), *name);
    }
}

#[test]
fn every_use_method_is_read() {
    let methods = [
        (UseMethod::Burn, "Burn"),
        (UseMethod::Multiple, "Multiple"),
        (UseMethod::Single, "Single"),
    ];
    for (i, (method, name)) in methods.iter().enumerate() {
        let metadata = deserialize_metadata(&full_account(4, 0, i as u8)).unwrap();
        assert_eq!(metadata.uses.unwrap().use_method, *method);
        assert_eq!(parse_use_method(*method), *name);
    }
}

#[test]
fn fields_of_later_versions_may_be_missing() {
    let mut data = head(4);
    data.push(0);
    data.extend_from_slice(&[0, 1, 0]);
    let metadata = deserialize_metadata(&data).unwrap();
    assert_eq!(metadata.data.creators, None);
    assert!(!metadata.primary_sale_happened);
    assert!(metadata.is_mutable);
    assert_eq!(metadata.edition_nonce, None);
    assert_eq!(metadata.token_standard, None);
    assert_eq!(metadata.collection, None);
    assert_eq!(metadata.uses, None);
    assert_eq!(metadata.collection_details, None);
}

#[test]
fn short_data_is_no_record() {
    assert!(deserialize_metadata(&[]).is_err());
    assert!(deserialize_metadata(&[4, 1, 2, 3]).is_err());
    assert_eq!(
        deserialize_metadata(&[]),
        Err("Unexpected length of input".to_string())
    );
}

#[test]
fn unknown_key_is_no_record() {
    assert_eq!(
        deserialize_metadata(&full_account(10, 0, 0)),
        Err("Unexpected variant index: 10".to_string())
    );
}
