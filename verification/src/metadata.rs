//! The metadata record of a token, as it is stored in its account.

use crate::address::Address;
use crate::stored::holds_record;
use mpl_token_metadata::state::CollectionDetails::V1;
use mpl_token_metadata::state::Metadata as Record;
use solana_program::borsh::try_from_slice_unchecked;
use vstd::prelude::*;

verus! {

/// The kind of account that a record was stored for.
#[derive(Debug, Clone, Copy, PartialEq, Eq, Structural)]
pub enum Key {
    Uninitialized,
    EditionV1,
    MasterEditionV1,
    ReservationListV1,
    MetadataV1,
    ReservationListV2,
    MasterEditionV2,
    EditionMarker,
    UseAuthorityRecord,
    CollectionAuthorityRecord,
}

/// The standard that a token follows.
#[derive(Debug, Clone, Copy, PartialEq, Eq, Structural)]
pub enum TokenStandard {
    NonFungible,
    FungibleAsset,
    Fungible,
    NonFungibleEdition,
}

/// How a token is used up.
#[derive(Debug, Clone, Copy, PartialEq, Eq, Structural)]
pub enum UseMethod {
    Burn,
    Multiple,
    Single,
}

/// One creator of a token, with the share of the royalties.
#[derive(Debug, PartialEq, Eq)]
pub struct Creator {
    pub address: Address,
    pub verified: bool,
    pub share: u8,
}

/// The collection that a token belongs to.
#[derive(Debug, PartialEq, Eq)]
pub struct Collection {
    pub verified: bool,
    pub key: Address,
}

/// How often a token may be used.
#[derive(Debug, Clone, Copy, PartialEq, Eq, Structural)]
pub struct Uses {
    pub use_method: UseMethod,
    pub remaining: u64,
    pub total: u64,
}

/// What a collection says of itself.
#[derive(Debug, Clone, Copy, PartialEq, Eq, Structural)]
pub enum CollectionDetails {
    V1 { size: u64 },
}

/// The descriptive part of a metadata record.
#[derive(Debug, PartialEq, Eq)]
pub struct Data {
    pub name: String,
    pub symbol: String,
    pub uri: String,
    pub seller_fee_basis_points: u16,
    pub creators: Option<Vec<Creator>>,
}

/// A metadata record.
#[derive(Debug, PartialEq, Eq)]
pub struct Metadata {
    pub key: Key,
    pub update_authority: Address,
    pub mint: Address,
    pub data: Data,
    pub primary_sale_happened: bool,
    pub is_mutable: bool,
    pub edition_nonce: Option<u8>,
    pub token_standard: Option<TokenStandard>,
    pub collection: Option<Collection>,
    pub uses: Option<Uses>,
    pub collection_details: Option<CollectionDetails>,
}

/// The mathematical value of a [`Creator`].
pub struct CreatorView {
    pub address: Seq<u8>,
    pub verified: bool,
    pub share: u8,
}

/// The mathematical value of a [`Collection`].
pub struct CollectionView {
    pub verified: bool,
    pub key: Seq<u8>,
}

/// The mathematical value of a [`Metadata`].
pub struct MetadataView {
    pub key: Key,
    pub update_authority: Seq<u8>,
    pub mint: Seq<u8>,
    pub name: Seq<char>,
    pub symbol: Seq<char>,
    pub uri: Seq<char>,
    pub seller_fee_basis_points: u16,
    pub creators: Option<Seq<CreatorView>>,
    pub primary_sale_happened: bool,
    pub is_mutable: bool,
    pub edition_nonce: Option<u8>,
    pub token_standard: Option<TokenStandard>,
    pub collection: Option<CollectionView>,
    pub uses: Option<Uses>,
    pub collection_details: Option<CollectionDetails>,
}

impl View for Creator {
    type V = CreatorView;

    open spec fn view(&self) -> CreatorView {
        CreatorView { address: self.address@, verified: self.verified, share: self.share }
    }
}

impl View for Collection {
    type V = CollectionView;

    open spec fn view(&self) -> CollectionView {
        CollectionView { verified: self.verified, key: self.key@ }
    }
}

impl View for Metadata {
    type V = MetadataView;

    open spec fn view(&self) -> MetadataView {
        MetadataView {
            key: self.key,
            update_authority: self.update_authority@,
            mint: self.mint@,
            name: self.data.name@,
            symbol: self.data.symbol@,
            uri: self.data.uri@,
            seller_fee_basis_points: self.data.seller_fee_basis_points,
            creators: match self.data.creators {
                Some(creators) => Some(creators@.map_values(|creator: Creator| creator@)),
                None => None,
            },
            primary_sale_happened: self.primary_sale_happened,
            is_mutable: self.is_mutable,
            edition_nonce: self.edition_nonce,
            token_standard: self.token_standard,
            collection: match self.collection {
                Some(collection) => Some(collection@),
                None => None,
            },
            uses: self.uses,
            collection_details: self.collection_details,
        }
    }
}

/// The name of a kind of account.
pub open spec fn key_name(key: Key) -> Seq<char> {
    match key {
        Key::Uninitialized => "Uninitialized"@,
        Key::EditionV1 => "EditionV1"@,
        Key::MasterEditionV1 => "MasterEditionV1"@,
        Key::ReservationListV1 => "ReservationListV1"@,
        Key::MetadataV1 => "MetadataV1"@,
        Key::ReservationListV2 => "ReservationListV2"@,
        Key::MasterEditionV2 => "MasterEditionV2"@,
        Key::EditionMarker => "EditionMarker"@,
        Key::UseAuthorityRecord => "UseAuthorityRecord"@,
        Key::CollectionAuthorityRecord => "CollectionAuthorityRecord"@,
    }
}

/// The name of a token standard.
pub open spec fn token_standard_name(token_standard: TokenStandard) -> Seq<char> {
    match token_standard {
        TokenStandard::NonFungible => "NonFungible"@,
        TokenStandard::FungibleAsset => "FungibleAsset"@,
        TokenStandard::Fungible => "Fungible"@,
        TokenStandard::NonFungibleEdition => "NonFungibleEdition"@,
    }
}

/// The name of a use method.
pub open spec fn use_method_name(use_method: UseMethod) -> Seq<char> {
    match use_method {
        UseMethod::Burn => "Burn"@,
        UseMethod::Multiple => "Multiple"@,
        UseMethod::Single => "Single"@,
    }
}

/// Names a kind of account.
pub fn parse_key(key: Key) -> (name: String)
    ensures
        name@ == key_name(key),
        match key {
            Key::Uninitialized => name@ == "Uninitialized"@,
            Key::EditionV1 => name@ == "EditionV1"@,
            Key::MasterEditionV1 => name@ == "MasterEditionV1"@,
            Key::ReservationListV1 => name@ == "ReservationListV1"@,
            Key::MetadataV1 => name@ == "MetadataV1"@,
            Key::ReservationListV2 => name@ == "ReservationListV2"@,
            Key::MasterEditionV2 => name@ == "MasterEditionV2"@,
            Key::EditionMarker => name@ == "EditionMarker"@,
            Key::UseAuthorityRecord => name@ == "UseAuthorityRecord"@,
            Key::CollectionAuthorityRecord => name@ == "CollectionAuthorityRecord"@,
        },
{
    match key {
        Key::Uninitialized => "Uninitialized".to_owned(),
        Key::EditionV1 => "EditionV1".to_owned(),
        Key::MasterEditionV1 => "MasterEditionV1".to_owned(),
        Key::ReservationListV1 => "ReservationListV1".to_owned(),
        Key::MetadataV1 => "MetadataV1".to_owned(),
        Key::ReservationListV2 => "ReservationListV2".to_owned(),
        Key::MasterEditionV2 => "MasterEditionV2".to_owned(),
        Key::EditionMarker => "EditionMarker".to_owned(),
        Key::UseAuthorityRecord => "UseAuthorityRecord".to_owned(),
        Key::CollectionAuthorityRecord => "CollectionAuthorityRecord".to_owned(),
    }
}

/// Names a token standard.
pub fn parse_token_standard(token_standard: TokenStandard) -> (name: String)
    ensures
        name@ == token_standard_name(token_standard),
        match token_standard {
            TokenStandard::NonFungible => name@ == "NonFungible"@,
            TokenStandard::FungibleAsset => name@ == "FungibleAsset"@,
            TokenStandard::Fungible => name@ == "Fungible"@,
            TokenStandard::NonFungibleEdition => name@ == "NonFungibleEdition"@,
        },
{
    match token_standard {
        TokenStandard::NonFungible => "NonFungible".to_owned(),
        TokenStandard::FungibleAsset => "FungibleAsset".to_owned(),
        TokenStandard::Fungible => "Fungible".to_owned(),
        TokenStandard::NonFungibleEdition => "NonFungibleEdition".to_owned(),
    }
}

/// Names a use method.
pub fn parse_use_method(use_method: UseMethod) -> (name: String)
    ensures
        name@ == use_method_name(use_method),
        match use_method {
            UseMethod::Burn => name@ == "Burn"@,
            UseMethod::Multiple => name@ == "Multiple"@,
            UseMethod::Single => name@ == "Single"@,
        },
{
    match use_method {
        UseMethod::Burn => "Burn".to_owned(),
        UseMethod::Multiple => "Multiple".to_owned(),
        UseMethod::Single => "Single".to_owned(),
    }
}

/// Different kinds of account have different names.
pub proof fn lemma_key_names_differ(key: Key, other: Key)
    ensures
        key_name(key) == key_name(other) ==> key == other,
{
    reveal_strlit("Uninitialized");
    reveal_strlit("EditionV1");
    reveal_strlit("MasterEditionV1");
    reveal_strlit("ReservationListV1");
    reveal_strlit("MetadataV1");
    reveal_strlit("ReservationListV2");
    reveal_strlit("MasterEditionV2");
    reveal_strlit("EditionMarker");
    reveal_strlit("UseAuthorityRecord");
    reveal_strlit("CollectionAuthorityRecord");
    assert("Uninitialized"@.len() == 13);
    assert("EditionV1"@.len() == 9);
    assert("MasterEditionV1"@.len() == 15);
    assert("ReservationListV1"@.len() == 17);
    assert("MetadataV1"@.len() == 10);
    assert("ReservationListV2"@.len() == 17);
    assert("MasterEditionV2"@.len() == 15);
    assert("EditionMarker"@.len() == 13);
    assert("UseAuthorityRecord"@.len() == 18);
    assert("CollectionAuthorityRecord"@.len() == 25);
    assert("Uninitialized"@[0] != "EditionMarker"@[0]);
    assert("MasterEditionV1"@[14] != "MasterEditionV2"@[14]);
    assert("ReservationListV1"@[16] != "ReservationListV2"@[16]);
}

/// Different token standards have different names.
pub proof fn lemma_token_standard_names_differ(standard: TokenStandard, other: TokenStandard)
    ensures
        token_standard_name(standard) == token_standard_name(other) ==> standard == other,
{
    reveal_strlit("NonFungible");
    reveal_strlit("FungibleAsset");
    reveal_strlit("Fungible");
    reveal_strlit("NonFungibleEdition");
    assert("NonFungible"@.len() == 11);
    assert("FungibleAsset"@.len() == 13);
    assert("Fungible"@.len() == 8);
    assert("NonFungibleEdition"@.len() == 18);
}

/// Different use methods have different names.
pub proof fn lemma_use_method_names_differ(method: UseMethod, other: UseMethod)
    ensures
        use_method_name(method) == use_method_name(other) ==> method == other,
{
    reveal_strlit("Burn");
    reveal_strlit("Multiple");
    reveal_strlit("Single");
    assert("Burn"@.len() == 4);
    assert("Multiple"@.len() == 8);
    assert("Single"@.len() == 6);
}

/// A decoded record with its enumerations as the positions of their variants. In order: key,
/// update authority, mint, name, symbol, uri, seller fee, creators, primary sale happened, is
/// mutable, edition nonce, token standard, collection, uses, size of the collection.
type RawMetadata = (
    u8,
    Address,
    Address,
    String,
    String,
    String,
    u16,
    Option<Vec<(Address, bool, u8)>>,
    bool,
    bool,
    Option<u8>,
    Option<u8>,
    Option<(bool, Address)>,
    Option<(u8, u64, u64)>,
    Option<u64>,
);

/// What `try_from_slice_unchecked` reads from the data of an account: the record, or the text of
/// the error.
pub uninterp spec fn decoded_metadata(data: Seq<u8>) -> Result<MetadataView, Seq<char>>;

spec fn key_at(position: u8) -> Key {
    match position {
        0 => Key::Uninitialized,
        1 => Key::EditionV1,
        2 => Key::MasterEditionV1,
        3 => Key::ReservationListV1,
        4 => Key::MetadataV1,
        5 => Key::ReservationListV2,
        6 => Key::MasterEditionV2,
        7 => Key::EditionMarker,
        8 => Key::UseAuthorityRecord,
        _ => Key::CollectionAuthorityRecord,
    }
}

spec fn token_standard_at(position: u8) -> TokenStandard {
    match position {
        0 => TokenStandard::NonFungible,
        1 => TokenStandard::FungibleAsset,
        2 => TokenStandard::Fungible,
        _ => TokenStandard::NonFungibleEdition,
    }
}

spec fn use_method_at(position: u8) -> UseMethod {
    match position {
        0 => UseMethod::Burn,
        1 => UseMethod::Multiple,
        _ => UseMethod::Single,
    }
}

/// The record that a [`RawMetadata`] stands for.
spec fn raw_view(raw: RawMetadata) -> MetadataView {
    MetadataView {
        key: key_at(raw.0),
        update_authority: raw.1@,
        mint: raw.2@,
        name: raw.3@,
        symbol: raw.4@,
        uri: raw.5@,
        seller_fee_basis_points: raw.6,
        creators: match raw.7 {
            Some(creators) => Some(
                creators@.map_values(
                    |creator: (Address, bool, u8)|
                        CreatorView {
                            address: creator.0@,
                            verified: creator.1,
                            share: creator.2,
                        },
                ),
            ),
            None => None,
        },
        primary_sale_happened: raw.8,
        is_mutable: raw.9,
        edition_nonce: raw.10,
        token_standard: match raw.11 {
            Some(position) => Some(token_standard_at(position)),
            None => None,
        },
        collection: match raw.12 {
            Some(collection) => Some(
                CollectionView { verified: collection.0, key: collection.1@ },
            ),
            None => None,
        },
        uses: match raw.13 {
            Some(uses) => Some(
                Uses { use_method: use_method_at(uses.0), remaining: uses.1, total: uses.2 },
            ),
            None => None,
        },
        collection_details: match raw.14 {
            Some(size) => Some(CollectionDetails::V1 { size }),
            None => None,
        },
    }
}

/// Whether a record that the data of an account holds is the one that was read.
spec fn reads_back(metadata: Result<RawMetadata, String>, data: Seq<u8>) -> bool {
    forall|record: MetadataView| #[trigger]
        holds_record(data, record) ==> (metadata matches Ok(raw) && raw_view(raw) == record)
}

/// `solana_program::borsh::try_from_slice_unchecked` for `mpl_token_metadata::state::Metadata`:
/// the record that the data of an account starts with, each enumeration by the position of its
/// variant, or the text of the error. Data that starts with a stored record is read as that record,
/// whatever the bytes behind it are.
#[verifier::external_body]
fn read_metadata(data: &[u8]) -> (metadata: Result<RawMetadata, String>)
    ensures
        match metadata {
            Ok(raw) => decoded_metadata(data@) == Ok::<MetadataView, Seq<char>>(raw_view(raw)),
            Err(text) => decoded_metadata(data@) == Err::<MetadataView, Seq<char>>(text@),
        },
        reads_back(metadata, data@),
{
    try_from_slice_unchecked(data).map(|Record {
        key, update_authority, mint, data, primary_sale_happened, is_mutable, edition_nonce,
        token_standard, collection, uses, collection_details
    }| (
        key as u8, update_authority.to_bytes(), mint.to_bytes(),
        data.name, data.symbol, data.uri, data.seller_fee_basis_points,
        data.creators.map(|v| v.iter().map(|c| (c.address.to_bytes(), c.verified, c.share)).collect()),
        primary_sale_happened, is_mutable, edition_nonce,
        token_standard.map(|t| t as u8),
        collection.map(|c| (c.verified, c.key.to_bytes())),
        uses.map(|u| (u.use_method as u8, u.remaining, u.total)),
        collection_details.map(|V1 { size }| size)
    )).map_err(|e| e.to_string())
}

fn key_from(position: u8) -> (key: Key)
    ensures
        key == key_at(position),
{
    match position {
        0 => Key::Uninitialized,
        1 => Key::EditionV1,
        2 => Key::MasterEditionV1,
        3 => Key::ReservationListV1,
        4 => Key::MetadataV1,
        5 => Key::ReservationListV2,
        6 => Key::MasterEditionV2,
        7 => Key::EditionMarker,
        8 => Key::UseAuthorityRecord,
        _ => Key::CollectionAuthorityRecord,
    }
}

fn token_standard_from(position: u8) -> (token_standard: TokenStandard)
    ensures
        token_standard == token_standard_at(position),
{
    match position {
        0 => TokenStandard::NonFungible,
        1 => TokenStandard::FungibleAsset,
        2 => TokenStandard::Fungible,
        _ => TokenStandard::NonFungibleEdition,
    }
}

fn use_method_from(position: u8) -> (use_method: UseMethod)
    ensures
        use_method == use_method_at(position),
{
    match position {
        0 => UseMethod::Burn,
        1 => UseMethod::Multiple,
        _ => UseMethod::Single,
    }
}

fn creators_from(raw: &Vec<(Address, bool, u8)>) -> (creators: Vec<Creator>)
    ensures
        creators@.len() == raw@.len(),
        forall|i: int|
            0 <= i < raw@.len() ==> (#[trigger] creators@[i])@ == (CreatorView {
                address: raw@[i].0@,
                verified: raw@[i].1,
                share: raw@[i].2,
            }),
{
    let mut creators: Vec<Creator> = Vec::new();
    for i in 0..raw.len()
        invariant
            creators@.len() == i,
            forall|j: int|
                0 <= j < i ==> (#[trigger] creators@[j])@ == (CreatorView {
                    address: raw@[j].0@,
                    verified: raw@[j].1,
                    share: raw@[j].2,
                }),
    {
        let (address, verified, share) = raw[i];
        creators.push(Creator { address, verified, share });
    }
    creators
}

fn metadata_from(raw: RawMetadata) -> (metadata: Metadata)
    ensures
        metadata@ == raw_view(raw),
        metadata.key == key_at(raw.0),
        metadata.update_authority == raw.1,
        metadata.mint == raw.2,
        metadata.data.name == raw.3,
        metadata.data.symbol == raw.4,
        metadata.data.uri == raw.5,
        metadata.data.seller_fee_basis_points == raw.6,
        match (raw.7, metadata.data.creators) {
            (Some(listed), Some(creators)) => {
                &&& creators@.len() == listed@.len()
                &&& forall|i: int|
                    0 <= i < listed@.len() ==> {
                        &&& (#[trigger] creators@[i]).address@ == listed@[i].0@
                        &&& creators@[i].verified == listed@[i].1
                        &&& creators@[i].share == listed@[i].2
                    }
            },
            (None, None) => true,
            _ => false,
        },
        metadata.primary_sale_happened == raw.8,
        metadata.is_mutable == raw.9,
        metadata.edition_nonce == raw.10,
        match (raw.11, metadata.token_standard) {
            (Some(position), Some(standard)) => standard == token_standard_at(position),
            (None, None) => true,
            _ => false,
        },
        match (raw.12, metadata.collection) {
            (Some(listed), Some(collection)) => collection.verified == listed.0 && collection.key
                == listed.1,
            (None, None) => true,
            _ => false,
        },
        match (raw.13, metadata.uses) {
            (Some(listed), Some(uses)) => {
                &&& uses.use_method == use_method_at(listed.0)
                &&& uses.remaining == listed.1
                &&& uses.total == listed.2
            },
            (None, None) => true,
            _ => false,
        },
        match (raw.14, metadata.collection_details) {
            (Some(size), Some(details)) => details == (CollectionDetails::V1 { size }),
            (None, None) => true,
            _ => false,
        },
{
    let creators = match &raw.7 {
        Some(creators) => Some(creators_from(creators)),
        None => None,
    };
    let metadata = Metadata {
        key: key_from(raw.0),
        update_authority: raw.1,
        mint: raw.2,
        data: Data {
            name: raw.3,
            symbol: raw.4,
            uri: raw.5,
            seller_fee_basis_points: raw.6,
            creators,
        },
        primary_sale_happened: raw.8,
        is_mutable: raw.9,
        edition_nonce: raw.10,
        token_standard: match raw.11 {
            Some(position) => Some(token_standard_from(position)),
            None => None,
        },
        collection: match raw.12 {
            Some((verified, key)) => Some(Collection { verified, key }),
            None => None,
        },
        uses: match raw.13 {
            Some((position, remaining, total)) => Some(
                Uses { use_method: use_method_from(position), remaining, total },
            ),
            None => None,
        },
        collection_details: match raw.14 {
            Some(size) => Some(CollectionDetails::V1 { size }),
            None => None,
        },
    };
    assert(metadata@.creators is Some ==> metadata@.creators->Some_0 =~= raw_view(
        raw,
    ).creators->Some_0);
    metadata
}

/// The value of the outcome of reading a record.
pub open spec fn read_view(metadata: Result<Metadata, String>) -> Result<MetadataView, Seq<char>> {
    match metadata {
        Ok(metadata) => Ok(metadata@),
        Err(text) => Err(text@),
    }
}

/// Reads the record that the data of an account starts with. What was stored is read back, whatever
/// the bytes behind it are.
pub fn deserialize_metadata(data: &[u8]) -> (metadata: Result<Metadata, String>)
    ensures
        read_view(metadata) == decoded_metadata(data@),
        match (decoded_metadata(data@), metadata) {
            (Ok(record), Ok(found)) => found@ == record,
            (Err(cause), Err(text)) => text@ == cause,
            _ => false,
        },
        forall|record: MetadataView| #[trigger]
            holds_record(data@, record) ==> (metadata matches Ok(found) && found@ == record),
{
    match read_metadata(data) {
        Ok(raw) => Ok(metadata_from(raw)),
        Err(text) => Err(text),
    }
}

/// The value of a record holds each of its fields in its own place: addresses by their bytes, texts
/// by their characters, and the creators one for one and in their order.
pub proof fn lemma_record_values(metadata: Metadata)
    ensures
        metadata@.key == metadata.key,
        metadata@.update_authority == metadata.update_authority@,
        metadata@.mint == metadata.mint@,
        metadata@.name == metadata.data.name@,
        metadata@.symbol == metadata.data.symbol@,
        metadata@.uri == metadata.data.uri@,
        metadata@.seller_fee_basis_points == metadata.data.seller_fee_basis_points,
        match (metadata.data.creators, metadata@.creators) {
            (Some(creators), Some(values)) => {
                &&& values.len() == creators@.len()
                &&& forall|i: int|
                    0 <= i < values.len() ==> {
                        &&& (#[trigger] values[i]).address == creators@[i].address@
                        &&& values[i].verified == creators@[i].verified
                        &&& values[i].share == creators@[i].share
                    }
            },
            (None, None) => true,
            _ => false,
        },
        metadata@.primary_sale_happened == metadata.primary_sale_happened,
        metadata@.is_mutable == metadata.is_mutable,
        metadata@.edition_nonce == metadata.edition_nonce,
        metadata@.token_standard == metadata.token_standard,
        match (metadata.collection, metadata@.collection) {
            (Some(collection), Some(value)) => value.verified == collection.verified && value.key
                == collection.key@,
            (None, None) => true,
            _ => false,
        },
        metadata@.uses == metadata.uses,
        metadata@.collection_details == metadata.collection_details,
{
}

} // verus!
