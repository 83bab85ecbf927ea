//! The JSON form of a metadata record.

use crate::address::{
    address_text, address_to_string, parsed_address, reads_as, Address, AddressError,
};
use crate::json::{
    add_field, distinct_fields, field_of, field_views, json_array, json_object, last_field,
    value_views, JsonValue, JsonView,
};
use crate::metadata::{
    key_name, lemma_record_values, parse_key, parse_token_standard, parse_use_method, token_standard_name,
    use_method_name, Creator, CreatorView, Metadata, MetadataView,
};
use crate::text::{text_option, trim_matches, trimmed};
use vstd::prelude::*;

verus! {

/// A creator, with the text of the address.
#[derive(Debug, PartialEq, Eq)]
pub struct JSONCreator {
    pub address: String,
    pub verified: bool,
    pub share: u8,
}

/// A collection, with the text of its address.
#[derive(Debug, PartialEq, Eq)]
pub struct JSONCollection {
    pub verified: bool,
    pub key: String,
}

/// The uses of a token, with the name of the use method.
#[derive(Debug, PartialEq, Eq)]
pub struct JSONUses {
    pub use_method: String,
    pub remaining: u64,
    pub total: u64,
}

/// A metadata record with every address and every enumeration as text, and without the padding of
/// its strings.
#[derive(Debug, PartialEq, Eq)]
pub struct JSONMetadata {
    pub key: String,
    pub update_authority: String,
    pub mint_account: String,
    pub name: String,
    pub symbol: String,
    pub seller_fee_basis_points: u16,
    pub uri: String,
    pub creators: Vec<JSONCreator>,
    pub primary_sale_happened: bool,
    pub is_mutable: bool,
    pub edition_nonce: Option<u8>,
    pub token_standard: Option<String>,
    pub collection: Option<JSONCollection>,
    pub uses: Option<JSONUses>,
}

/// The mathematical value of a [`JSONCreator`].
pub struct CreatorText {
    pub address: Seq<char>,
    pub verified: bool,
    pub share: u8,
}

/// The mathematical value of a [`JSONCollection`].
pub struct CollectionText {
    pub verified: bool,
    pub key: Seq<char>,
}

/// The mathematical value of a [`JSONUses`].
pub struct UsesText {
    pub use_method: Seq<char>,
    pub remaining: u64,
    pub total: u64,
}

/// The mathematical value of a [`JSONMetadata`].
pub struct MetadataText {
    pub key: Seq<char>,
    pub update_authority: Seq<char>,
    pub mint_account: Seq<char>,
    pub name: Seq<char>,
    pub symbol: Seq<char>,
    pub seller_fee_basis_points: u16,
    pub uri: Seq<char>,
    pub creators: Seq<CreatorText>,
    pub primary_sale_happened: bool,
    pub is_mutable: bool,
    pub edition_nonce: Option<u8>,
    pub token_standard: Option<Seq<char>>,
    pub collection: Option<CollectionText>,
    pub uses: Option<UsesText>,
}

impl View for JSONCreator {
    type V = CreatorText;

    open spec fn view(&self) -> CreatorText {
        CreatorText { address: self.address@, verified: self.verified, share: self.share }
    }
}

impl View for JSONCollection {
    type V = CollectionText;

    open spec fn view(&self) -> CollectionText {
        CollectionText { verified: self.verified, key: self.key@ }
    }
}

impl View for JSONUses {
    type V = UsesText;

    open spec fn view(&self) -> UsesText {
        UsesText { use_method: self.use_method@, remaining: self.remaining, total: self.total }
    }
}

impl View for JSONMetadata {
    type V = MetadataText;

    open spec fn view(&self) -> MetadataText {
        MetadataText {
            key: self.key@,
            update_authority: self.update_authority@,
            mint_account: self.mint_account@,
            name: self.name@,
            symbol: self.symbol@,
            seller_fee_basis_points: self.seller_fee_basis_points,
            uri: self.uri@,
            creators: self.creators@.map_values(|creator: JSONCreator| creator@),
            primary_sale_happened: self.primary_sale_happened,
            is_mutable: self.is_mutable,
            edition_nonce: self.edition_nonce,
            token_standard: text_option(self.token_standard),
            collection: match self.collection {
                Some(collection) => Some(collection@),
                None => None,
            },
            uses: match self.uses {
                Some(uses) => Some(uses@),
                None => None,
            },
        }
    }
}

/// A creator with the text of the address.
pub open spec fn creator_text(creator: CreatorView) -> CreatorText {
    CreatorText {
        address: address_text(creator.address),
        verified: creator.verified,
        share: creator.share,
    }
}

/// The text form of a record. A record without a list of creators has none.
pub open spec fn metadata_text(metadata: MetadataView) -> MetadataText {
    MetadataText {
        key: key_name(metadata.key),
        update_authority: address_text(metadata.update_authority),
        mint_account: address_text(metadata.mint),
        name: trimmed(metadata.name, '\0'),
        symbol: trimmed(metadata.symbol, '\0'),
        seller_fee_basis_points: metadata.seller_fee_basis_points,
        uri: trimmed(metadata.uri, '\0'),
        creators: match metadata.creators {
            Some(creators) => creators.map_values(|creator: CreatorView| creator_text(creator)),
            None => Seq::empty(),
        },
        primary_sale_happened: metadata.primary_sale_happened,
        is_mutable: metadata.is_mutable,
        edition_nonce: metadata.edition_nonce,
        token_standard: match metadata.token_standard {
            Some(token_standard) => Some(token_standard_name(token_standard)),
            None => None,
        },
        collection: match metadata.collection {
            Some(collection) => Some(
                CollectionText {
                    verified: collection.verified,
                    key: address_text(collection.key),
                },
            ),
            None => None,
        },
        uses: match metadata.uses {
            Some(uses) => Some(
                UsesText {
                    use_method: use_method_name(uses.use_method),
                    remaining: uses.remaining,
                    total: uses.total,
                },
            ),
            None => None,
        },
    }
}

/// Whether every address of a text form is read as the address that the record holds in its place.
pub open spec fn addresses_read_back(text: MetadataText, metadata: MetadataView) -> bool {
    &&& reads_as(text.mint_account, metadata.mint)
    &&& reads_as(text.update_authority, metadata.update_authority)
    &&& metadata.creators matches Some(creators) ==> {
        &&& text.creators.len() == creators.len()
        &&& forall|i: int|
            0 <= i < creators.len() ==> reads_as(
                (#[trigger] text.creators[i]).address,
                creators[i].address,
            )
    }
    &&& metadata.collection matches Some(collection) ==> {
        &&& text.collection is Some
        &&& reads_as(text.collection->Some_0.key, collection.key)
    }
}

/// The JSON form of a creator.
pub open spec fn creator_json(creator: CreatorText) -> JsonView {
    JsonView::Object(
        seq![
            ("address"@, JsonView::Text(creator.address)),
            ("verified"@, JsonView::Bool(creator.verified)),
            ("share"@, JsonView::Number(creator.share as u64)),
        ],
    )
}

/// The JSON form of a collection.
pub open spec fn collection_json(collection: CollectionText) -> JsonView {
    JsonView::Object(
        seq![
            ("verified"@, JsonView::Bool(collection.verified)),
            ("key"@, JsonView::Text(collection.key)),
        ],
    )
}

/// The JSON form of the uses of a token.
pub open spec fn uses_json(uses: UsesText) -> JsonView {
    JsonView::Object(
        seq![
            ("use_method"@, JsonView::Text(uses.use_method)),
            ("remaining"@, JsonView::Number(uses.remaining)),
            ("total"@, JsonView::Number(uses.total)),
        ],
    )
}

/// The fields of the short JSON form of a record.
pub open spec fn data_fields(metadata: MetadataText) -> Seq<(Seq<char>, JsonView)> {
    seq![
        ("name"@, JsonView::Text(metadata.name)),
        ("symbol"@, JsonView::Text(metadata.symbol)),
        (
            "seller_fee_basis_points"@,
            JsonView::Number(metadata.seller_fee_basis_points as u64),
        ),
        ("uri"@, JsonView::Text(metadata.uri)),
        (
            "creators"@,
            JsonView::Array(
                metadata.creators.map_values(|creator: CreatorText| creator_json(creator)),
            ),
        ),
    ]
}

/// The fields of the full JSON form of a record.
pub open spec fn full_fields(metadata: MetadataText) -> Seq<(Seq<char>, JsonView)> {
    seq![
        ("key"@, JsonView::Text(metadata.key)),
        ("update_authority"@, JsonView::Text(metadata.update_authority)),
        ("mint_account"@, JsonView::Text(metadata.mint_account)),
        ("nft_data"@, JsonView::Object(data_fields(metadata))),
        ("primary_sale_happened"@, JsonView::Bool(metadata.primary_sale_happened)),
        ("is_mutable"@, JsonView::Bool(metadata.is_mutable)),
        (
            "edition_nonce"@,
            match metadata.edition_nonce {
                Some(nonce) => JsonView::Number(nonce as u64),
                None => JsonView::Null,
            },
        ),
        (
            "token_standard"@,
            match metadata.token_standard {
                Some(name) => JsonView::Text(name),
                None => JsonView::Null,
            },
        ),
        (
            "collection"@,
            match metadata.collection {
                Some(collection) => collection_json(collection),
                None => JsonView::Null,
            },
        ),
        (
            "uses"@,
            match metadata.uses {
                Some(uses) => uses_json(uses),
                None => JsonView::Null,
            },
        ),
    ]
}

/// The JSON form of a record, short or full.
pub open spec fn metadata_json(metadata: MetadataText, full: bool) -> JsonView {
    if full {
        JsonView::Object(full_fields(metadata))
    } else {
        JsonView::Object(data_fields(metadata))
    }
}

fn creator_value(creator: &JSONCreator) -> (json: JsonValue)
    ensures
        json@ == creator_json(creator@),
{
    let mut fields: Vec<(String, JsonValue)> = Vec::new();
    add_field(&mut fields, "address", JsonValue::Text(creator.address.clone()));
    add_field(&mut fields, "verified", JsonValue::Bool(creator.verified));
    add_field(&mut fields, "share", JsonValue::Number(creator.share as u64));
    assert(field_views(fields@) =~= creator_json(creator@)->Object_0);
    json_object(fields)
}

fn collection_value(collection: &JSONCollection) -> (json: JsonValue)
    ensures
        json@ == collection_json(collection@),
{
    let mut fields: Vec<(String, JsonValue)> = Vec::new();
    add_field(&mut fields, "verified", JsonValue::Bool(collection.verified));
    add_field(&mut fields, "key", JsonValue::Text(collection.key.clone()));
    assert(field_views(fields@) =~= collection_json(collection@)->Object_0);
    json_object(fields)
}

fn uses_value(uses: &JSONUses) -> (json: JsonValue)
    ensures
        json@ == uses_json(uses@),
{
    let mut fields: Vec<(String, JsonValue)> = Vec::new();
    add_field(&mut fields, "use_method", JsonValue::Text(uses.use_method.clone()));
    add_field(&mut fields, "remaining", JsonValue::Number(uses.remaining));
    add_field(&mut fields, "total", JsonValue::Number(uses.total));
    assert(field_views(fields@) =~= uses_json(uses@)->Object_0);
    json_object(fields)
}

fn creator_values(creators: &Vec<JSONCreator>) -> (json: Vec<JsonValue>)
    ensures
        value_views(json@) == creators@.map_values(|creator: JSONCreator| creator@).map_values(
            |creator: CreatorText| creator_json(creator),
        ),
{
    let mut json: Vec<JsonValue> = Vec::new();
    for i in 0..creators.len()
        invariant
            json@.len() == i,
            forall|j: int| 0 <= j < i ==> (#[trigger] json@[j])@ == creator_json(creators@[j]@),
    {
        json.push(creator_value(&creators[i]));
    }
    assert(value_views(json@) =~= creators@.map_values(
        |creator: JSONCreator| creator@,
    ).map_values(|creator: CreatorText| creator_json(creator)));
    json
}

impl JSONMetadata {
    fn data_value(&self) -> (json: JsonValue)
        ensures
            json@ == JsonView::Object(data_fields(self@)),
    {
        let mut fields: Vec<(String, JsonValue)> = Vec::new();
        add_field(&mut fields, "name", JsonValue::Text(self.name.clone()));
        add_field(&mut fields, "symbol", JsonValue::Text(self.symbol.clone()));
        add_field(
            &mut fields,
            "seller_fee_basis_points",
            JsonValue::Number(self.seller_fee_basis_points as u64),
        );
        add_field(&mut fields, "uri", JsonValue::Text(self.uri.clone()));
        add_field(&mut fields, "creators", json_array(creator_values(&self.creators)));
        assert(field_views(fields@) =~= data_fields(self@));
        json_object(fields)
    }

    /// The JSON form of the record: the descriptive data alone or, where `full` is set, the whole
    /// record with that data in the field `nft_data`.
    pub fn to_json(&self, full: bool) -> (json: JsonValue)
        ensures
            json@ == metadata_json(self@, full),
    {
        let data_json = self.data_value();
        if !full {
            return data_json;
        }
        let mut fields: Vec<(String, JsonValue)> = Vec::new();
        add_field(&mut fields, "key", JsonValue::Text(self.key.clone()));
        add_field(&mut fields, "update_authority", JsonValue::Text(self.update_authority.clone()));
        add_field(&mut fields, "mint_account", JsonValue::Text(self.mint_account.clone()));
        add_field(&mut fields, "nft_data", data_json);
        add_field(
            &mut fields,
            "primary_sale_happened",
            JsonValue::Bool(self.primary_sale_happened),
        );
        add_field(&mut fields, "is_mutable", JsonValue::Bool(self.is_mutable));
        let nonce = match self.edition_nonce {
            Some(nonce) => JsonValue::Number(nonce as u64),
            None => JsonValue::Null,
        };
        add_field(&mut fields, "edition_nonce", nonce);
        let token_standard = match &self.token_standard {
            Some(name) => JsonValue::Text(name.clone()),
            None => JsonValue::Null,
        };
        add_field(&mut fields, "token_standard", token_standard);
        let collection = match &self.collection {
            Some(collection) => collection_value(collection),
            None => JsonValue::Null,
        };
        add_field(&mut fields, "collection", collection);
        let uses = match &self.uses {
            Some(uses) => uses_value(uses),
            None => JsonValue::Null,
        };
        add_field(&mut fields, "uses", uses);
        assert(field_views(fields@) =~= full_fields(self@));
        json_object(fields)
    }
}

fn creator_texts(creators: &Vec<Creator>) -> (texts: Vec<JSONCreator>)
    ensures
        texts@.len() == creators@.len(),
        forall|i: int|
            0 <= i < texts@.len() ==> (#[trigger] texts@[i])@ == creator_text(creators@[i]@),
        forall|i: int|
            0 <= i < texts@.len() ==> reads_as(
                (#[trigger] texts@[i]).address@,
                creators@[i].address@,
            ),
{
    let mut texts: Vec<JSONCreator> = Vec::new();
    for i in 0..creators.len()
        invariant
            texts@.len() == i,
            forall|j: int| 0 <= j < i ==> (#[trigger] texts@[j])@ == creator_text(creators@[j]@),
            forall|j: int|
                0 <= j < i ==> reads_as((#[trigger] texts@[j]).address@, creators@[j].address@),
    {
        let creator = &creators[i];
        texts.push(
            JSONCreator {
                address: address_to_string(&creator.address),
                verified: creator.verified,
                share: creator.share,
            },
        );
    }
    texts
}

/// Puts a record into its text form.
pub fn render_metadata(metadata: &Metadata) -> (text: JSONMetadata)
    ensures
        text@ == metadata_text(metadata@),
        addresses_read_back(text@, metadata@),
{
    let creators = match &metadata.data.creators {
        Some(creators) => creator_texts(creators),
        None => Vec::new(),
    };
    let text = JSONMetadata {
        key: parse_key(metadata.key),
        update_authority: address_to_string(&metadata.update_authority),
        mint_account: address_to_string(&metadata.mint),
        name: trim_matches(metadata.data.name.as_str(), '\0').to_owned(),
        symbol: trim_matches(metadata.data.symbol.as_str(), '\0').to_owned(),
        seller_fee_basis_points: metadata.data.seller_fee_basis_points,
        uri: trim_matches(metadata.data.uri.as_str(), '\0').to_owned(),
        creators,
        primary_sale_happened: metadata.primary_sale_happened,
        is_mutable: metadata.is_mutable,
        edition_nonce: metadata.edition_nonce,
        token_standard: match metadata.token_standard {
            Some(token_standard) => Some(parse_token_standard(token_standard)),
            None => None,
        },
        collection: match &metadata.collection {
            Some(collection) => Some(
                JSONCollection {
                    verified: collection.verified,
                    key: address_to_string(&collection.key),
                },
            ),
            None => None,
        },
        uses: match metadata.uses {
            Some(uses) => Some(
                JSONUses {
                    use_method: parse_use_method(uses.use_method),
                    remaining: uses.remaining,
                    total: uses.total,
                },
            ),
            None => None,
        },
    };
    assert(text@.creators =~= metadata_text(metadata@).creators);
    text
}

/// The JSON form of a record: the descriptive data alone or, where `full` is set, the whole
/// record. The text of each address is read as that address.
pub fn decode_to_json(metadata: Metadata, full: bool) -> (json: JsonValue)
    ensures
        json@ == metadata_json(metadata_text(metadata@), full),
        addresses_read_back(metadata_text(metadata@), metadata@),
        full ==> {
            &&& field_of(json@, "key"@) == Some(JsonView::Text(key_name(metadata.key)))
            &&& field_of(json@, "update_authority"@) == Some(
                JsonView::Text(address_text(metadata.update_authority@)),
            )
            &&& field_of(json@, "mint_account"@) == Some(
                JsonView::Text(address_text(metadata.mint@)),
            )
            &&& field_of(json@, "primary_sale_happened"@) == Some(
                JsonView::Bool(metadata.primary_sale_happened),
            )
            &&& field_of(json@, "is_mutable"@) == Some(JsonView::Bool(metadata.is_mutable))
            &&& field_of(json@, "edition_nonce"@) == Some(
                match metadata.edition_nonce {
                    Some(nonce) => JsonView::Number(nonce as u64),
                    None => JsonView::Null,
                },
            )
            &&& field_of(json@, "token_standard"@) == Some(
                match metadata.token_standard {
                    Some(standard) => JsonView::Text(token_standard_name(standard)),
                    None => JsonView::Null,
                },
            )
            &&& match metadata.collection {
                Some(collection) => {
                    &&& field_of(json@, "collection"@) matches Some(shown)
                    &&& field_of(shown, "verified"@) == Some(JsonView::Bool(collection.verified))
                    &&& field_of(shown, "key"@) == Some(
                        JsonView::Text(address_text(collection.key@)),
                    )
                },
                None => field_of(json@, "collection"@) == Some(JsonView::Null),
            }
            &&& match metadata.uses {
                Some(uses) => {
                    &&& field_of(json@, "uses"@) matches Some(shown)
                    &&& field_of(shown, "use_method"@) == Some(
                        JsonView::Text(use_method_name(uses.use_method)),
                    )
                    &&& field_of(shown, "remaining"@) == Some(JsonView::Number(uses.remaining))
                    &&& field_of(shown, "total"@) == Some(JsonView::Number(uses.total))
                },
                None => field_of(json@, "uses"@) == Some(JsonView::Null),
            }
        },
        ({
            let data = if full {
                field_of(json@, "nft_data"@)->Some_0
            } else {
                json@
            };
            &&& field_of(data, "name"@) == Some(
                JsonView::Text(trimmed(metadata.data.name@, '\0')),
            )
            &&& field_of(data, "symbol"@) == Some(
                JsonView::Text(trimmed(metadata.data.symbol@, '\0')),
            )
            &&& field_of(data, "uri"@) == Some(JsonView::Text(trimmed(metadata.data.uri@, '\0')))
            &&& field_of(data, "seller_fee_basis_points"@) == Some(
                JsonView::Number(metadata.data.seller_fee_basis_points as u64),
            )
            &&& field_of(data, "creators"@) matches Some(JsonView::Array(items))
            &&& match metadata.data.creators {
                Some(creators) => {
                    &&& items.len() == creators@.len()
                    &&& forall|i: int|
                        0 <= i < items.len() ==> {
                            &&& field_of(#[trigger] items[i], "address"@) matches Some(
                                JsonView::Text(address),
                            )
                            &&& parsed_address(address) == Ok::<Seq<u8>, AddressError>(
                                creators@[i].address@,
                            )
                            &&& field_of(items[i], "verified"@) == Some(
                                JsonView::Bool(creators@[i].verified),
                            )
                            &&& field_of(items[i], "share"@) == Some(
                                JsonView::Number(creators@[i].share as u64),
                            )
                        }
                },
                None => items.len() == 0,
            }
        }),
{
    proof {
        lemma_record_values(metadata);
        lemma_short_form_of_a_record(metadata@);
        lemma_full_form_of_a_record(metadata@);
    }
    render_metadata(&metadata).to_json(full)
}

/// The path of the file `name` with a JSON form, in the directory `output`.
pub open spec fn file_path(output: Seq<char>, name: Seq<char>) -> Seq<char> {
    output + "/"@ + name + ".json"@
}

/// The path of the file `name` with a JSON form, in the directory `output`.
pub fn json_file_path(output: &str, name: &str) -> (path: String)
    ensures
        path@ == file_path(output@, name@),
        path@ == output@ + "/"@ + name@ + ".json"@,
{
    let mut path = output.to_owned();
    path.append("/");
    path.append(name);
    path.append(".json");
    path
}

/// The file that a record is written to, which is named after its mint account, and the JSON that
/// is written.
pub fn write_metadata_to_file(metadata: Metadata, full: bool, output: String) -> (file: (
    String,
    JsonValue,
))
    ensures
        file.0@ == file_path(output@, address_text(metadata@.mint)),
        file.0@ == output@ + "/"@ + address_text(metadata.mint@) + ".json"@,
        file.1@ == metadata_json(metadata_text(metadata@), full),
        addresses_read_back(metadata_text(metadata@), metadata@),
{
    let mint_address = address_to_string(&metadata.mint);
    let json_metadata = decode_to_json(metadata, full);
    (json_file_path(output.as_str(), mint_address.as_str()), json_metadata)
}

/// The value of the outcome of a step that may fail with a text.
pub open spec fn step_view(step: Result<(), String>) -> Result<(), Seq<char>> {
    match step {
        Ok(()) => Ok(()),
        Err(text) => Err(text@),
    }
}

/// The outcome of writing the file of a mint account: the file has to be created and then written.
pub open spec fn file_outcome(
    mint_account: Seq<char>,
    created: Result<(), Seq<char>>,
    written: Result<(), Seq<char>>,
) -> Result<(), Seq<char>> {
    match created {
        Err(cause) => Err(
            "Failed to create JSON file for mint account: "@ + mint_account + ", error: "@ + cause,
        ),
        Ok(()) => match written {
            Err(cause) => Err(
                "Failed to write JSON file for mint account: "@ + mint_account + ", error: "@
                    + cause,
            ),
            Ok(()) => Ok(()),
        },
    }
}

fn file_error(what: &str, mint_account: &str, cause: &str) -> (text: String)
    ensures
        text@ == what@ + mint_account@ + ", error: "@ + cause@,
{
    let mut text = what.to_owned();
    text.append(mint_account);
    text.append(", error: ");
    text.append(cause);
    text
}

/// Sums up the creation and the writing of the file of a mint account.
pub fn check_written(
    mint_account: &str,
    created: Result<(), String>,
    written: Result<(), String>,
) -> (outcome: Result<(), String>)
    ensures
        step_view(outcome) == file_outcome(mint_account@, step_view(created), step_view(written)),
        match (created, written) {
            (Ok(()), Ok(())) => outcome is Ok,
            (Ok(()), Err(cause)) => outcome matches Err(text) && text@
                == "Failed to write JSON file for mint account: "@ + mint_account@ + ", error: "@
                + cause@,
            (Err(cause), _) => outcome matches Err(text) && text@
                == "Failed to create JSON file for mint account: "@ + mint_account@ + ", error: "@
                + cause@,
        },
{
    match created {
        Err(cause) => Err(
            file_error(
                "Failed to create JSON file for mint account: ",
                mint_account,
                cause.as_str(),
            ),
        ),
        Ok(()) => match written {
            Err(cause) => Err(
                file_error(
                    "Failed to write JSON file for mint account: ",
                    mint_account,
                    cause.as_str(),
                ),
            ),
            Ok(()) => Ok(()),
        },
    }
}

/// Sums up the creation and the writing of the file of the record with this mint account.
pub fn check_metadata_written(
    mint: Address,
    created: Result<(), String>,
    written: Result<(), String>,
) -> (outcome: Result<(), String>)
    ensures
        step_view(outcome) == file_outcome(
            address_text(mint@),
            step_view(created),
            step_view(written),
        ),
        match (created, written) {
            (Ok(()), Ok(())) => outcome is Ok,
            (Ok(()), Err(cause)) => outcome matches Err(text) && text@
                == "Failed to write JSON file for mint account: "@ + address_text(mint@) + ", error: "@
                + cause@,
            (Err(cause), _) => outcome matches Err(text) && text@
                == "Failed to create JSON file for mint account: "@ + address_text(mint@) + ", error: "@
                + cause@,
        },
{
    check_written(address_to_string(&mint).as_str(), created, written)
}

/// The full form of a record holds the short one in its field `nft_data`.
pub proof fn lemma_full_form_holds_short_form(metadata: MetadataText)
    ensures
        field_of(metadata_json(metadata, true), "nft_data"@) == Some(
            metadata_json(metadata, false),
        ),
{
    lemma_distinct_field_names(metadata);
    lemma_last_field(full_fields(metadata), 3);
}

proof fn lemma_last_field(fields: Seq<(Seq<char>, JsonView)>, i: int)
    requires
        distinct_fields(fields),
        0 <= i < fields.len(),
    ensures
        last_field(fields, fields[i].0) == Some(fields[i].1),
    decreases fields.len(),
{
    let last = fields.len() - 1;
    if i < last {
        assert(fields[i].0 != fields[last].0);
        assert(fields.drop_last()[i] == fields[i]);
        lemma_last_field(fields.drop_last(), i);
    }
}

/// No field occurs twice in either form of a record.
pub proof fn lemma_distinct_field_names(metadata: MetadataText)
    ensures
        distinct_fields(data_fields(metadata)),
        distinct_fields(full_fields(metadata)),
{
    reveal_strlit("name");
    reveal_strlit("symbol");
    reveal_strlit("seller_fee_basis_points");
    reveal_strlit("uri");
    reveal_strlit("creators");
    reveal_strlit("key");
    reveal_strlit("update_authority");
    reveal_strlit("mint_account");
    reveal_strlit("nft_data");
    reveal_strlit("primary_sale_happened");
    reveal_strlit("is_mutable");
    reveal_strlit("edition_nonce");
    reveal_strlit("token_standard");
    reveal_strlit("collection");
    reveal_strlit("uses");
    assert("name"@.len() == 4);
    assert("symbol"@.len() == 6);
    assert("seller_fee_basis_points"@.len() == 23);
    assert("uri"@.len() == 3);
    assert("creators"@.len() == 8);
    assert("key"@.len() == 3);
    assert("update_authority"@.len() == 16);
    assert("mint_account"@.len() == 12);
    assert("nft_data"@.len() == 8);
    assert("primary_sale_happened"@.len() == 21);
    assert("is_mutable"@.len() == 10);
    assert("edition_nonce"@.len() == 13);
    assert("token_standard"@.len() == 14);
    assert("collection"@.len() == 10);
    assert("uses"@.len() == 4);
    assert("edition_nonce"@[0] != "token_standard"@[0]);
    assert("is_mutable"@[2] != "collection"@[2]);
    assert("name"@[0] != "uses"@[0]);
}

/// Files of different names in one directory have different paths.
pub proof fn lemma_different_names_different_paths(
    output: Seq<char>,
    name: Seq<char>,
    other: Seq<char>,
)
    ensures
        file_path(output, name) == file_path(output, other) ==> name == other,
{
    if file_path(output, name) == file_path(output, other) {
        let start = (output + "/"@).len() as int;
        let end = start + name.len();
        assert(file_path(output, name).len() == end + ".json"@.len());
        assert(name =~= file_path(output, name).subrange(start, end));
        assert(other =~= file_path(output, other).subrange(start, end));
    }
}

/// Records of different mint accounts are written to different files of the directory, where the
/// text of each address is read as that address.
pub proof fn lemma_different_mints_different_files(output: Seq<char>, mint: Seq<u8>, other: Seq<u8>)
    requires
        reads_as(address_text(mint), mint),
        reads_as(address_text(other), other),
        mint != other,
    ensures
        file_path(output, address_text(mint)) != file_path(output, address_text(other)),
{
    lemma_different_names_different_paths(output, address_text(mint), address_text(other));
}

/// The value of a text form holds each of its fields in its own place, and the creators one for one
/// and in their order.
pub proof fn lemma_text_values(text: JSONMetadata)
    ensures
        text@.key == text.key@,
        text@.update_authority == text.update_authority@,
        text@.mint_account == text.mint_account@,
        text@.name == text.name@,
        text@.symbol == text.symbol@,
        text@.seller_fee_basis_points == text.seller_fee_basis_points,
        text@.uri == text.uri@,
        text@.creators.len() == text.creators@.len(),
        forall|i: int|
            0 <= i < text.creators@.len() ==> {
                &&& (#[trigger] text@.creators[i]).address == text.creators@[i].address@
                &&& text@.creators[i].verified == text.creators@[i].verified
                &&& text@.creators[i].share == text.creators@[i].share
            },
        text@.primary_sale_happened == text.primary_sale_happened,
        text@.is_mutable == text.is_mutable,
        text@.edition_nonce == text.edition_nonce,
        match (text.token_standard, text@.token_standard) {
            (Some(name), Some(value)) => value == name@,
            (None, None) => true,
            _ => false,
        },
        match (text.collection, text@.collection) {
            (Some(collection), Some(value)) => value.verified == collection.verified && value.key
                == collection.key@,
            (None, None) => true,
            _ => false,
        },
        match (text.uses, text@.uses) {
            (Some(uses), Some(value)) => {
                &&& value.use_method == uses.use_method@
                &&& value.remaining == uses.remaining
                &&& value.total == uses.total
            },
            (None, None) => true,
            _ => false,
        },
{
}

/// The text form of a record says of each field of the record what the record says of it: addresses
/// in their text, enumerations by name, strings without their padding, and the creators one for one
/// and in their order.
pub proof fn lemma_text_form_of_a_record(metadata: MetadataView)
    ensures
        metadata_text(metadata).key == key_name(metadata.key),
        metadata_text(metadata).update_authority == address_text(metadata.update_authority),
        metadata_text(metadata).mint_account == address_text(metadata.mint),
        metadata_text(metadata).name == trimmed(metadata.name, '\0'),
        metadata_text(metadata).symbol == trimmed(metadata.symbol, '\0'),
        metadata_text(metadata).uri == trimmed(metadata.uri, '\0'),
        metadata_text(metadata).seller_fee_basis_points == metadata.seller_fee_basis_points,
        match metadata.creators {
            Some(creators) => {
                &&& metadata_text(metadata).creators.len() == creators.len()
                &&& forall|i: int|
                    0 <= i < creators.len() ==> {
                        &&& (#[trigger] metadata_text(metadata).creators[i]).address
                            == address_text(creators[i].address)
                        &&& metadata_text(metadata).creators[i].verified == creators[i].verified
                        &&& metadata_text(metadata).creators[i].share == creators[i].share
                    }
            },
            None => metadata_text(metadata).creators.len() == 0,
        },
        metadata_text(metadata).primary_sale_happened == metadata.primary_sale_happened,
        metadata_text(metadata).is_mutable == metadata.is_mutable,
        metadata_text(metadata).edition_nonce == metadata.edition_nonce,
        match (metadata.token_standard, metadata_text(metadata).token_standard) {
            (Some(standard), Some(name)) => name == token_standard_name(standard),
            (None, None) => true,
            _ => false,
        },
        match (metadata.collection, metadata_text(metadata).collection) {
            (Some(collection), Some(text)) => text.verified == collection.verified && text.key
                == address_text(collection.key),
            (None, None) => true,
            _ => false,
        },
        match (metadata.uses, metadata_text(metadata).uses) {
            (Some(uses), Some(text)) => {
                &&& text.use_method == use_method_name(uses.use_method)
                &&& text.remaining == uses.remaining
                &&& text.total == uses.total
            },
            (None, None) => true,
            _ => false,
        },
{
}

/// The short form is an object with five fields, in this order: the name, the symbol, the seller
/// fee, the uri, and the creators as an array with one object for each.
pub proof fn lemma_short_form(text: MetadataText)
    ensures
        metadata_json(text, false) matches JsonView::Object(fields) && {
            &&& fields.len() == 5
            &&& fields[0] == ("name"@, JsonView::Text(text.name))
            &&& fields[1] == ("symbol"@, JsonView::Text(text.symbol))
            &&& fields[2] == (
                "seller_fee_basis_points"@,
                JsonView::Number(text.seller_fee_basis_points as u64),
            )
            &&& fields[3] == ("uri"@, JsonView::Text(text.uri))
            &&& fields[4].0 == "creators"@
            &&& fields[4].1 matches JsonView::Array(items)
            &&& items.len() == text.creators.len()
            &&& forall|i: int|
                0 <= i < items.len() ==> (#[trigger] items[i] matches JsonView::Object(parts) && {
                    &&& parts.len() == 3
                    &&& parts[0] == ("address"@, JsonView::Text(text.creators[i].address))
                    &&& parts[1] == ("verified"@, JsonView::Bool(text.creators[i].verified))
                    &&& parts[2] == ("share"@, JsonView::Number(text.creators[i].share as u64))
                })
        },
{
}

/// The full form is an object with ten fields, in this order: the key, the update authority, the
/// mint account, the short form, whether the primary sale happened, whether the record is mutable,
/// the edition nonce, the token standard, the collection and the uses. What a record does not have
/// is null.
pub proof fn lemma_full_form(text: MetadataText)
    ensures
        metadata_json(text, true) matches JsonView::Object(fields) && {
            &&& fields.len() == 10
            &&& fields[0] == ("key"@, JsonView::Text(text.key))
            &&& fields[1] == ("update_authority"@, JsonView::Text(text.update_authority))
            &&& fields[2] == ("mint_account"@, JsonView::Text(text.mint_account))
            &&& fields[3] == ("nft_data"@, metadata_json(text, false))
            &&& fields[4] == ("primary_sale_happened"@, JsonView::Bool(text.primary_sale_happened))
            &&& fields[5] == ("is_mutable"@, JsonView::Bool(text.is_mutable))
            &&& fields[6].0 == "edition_nonce"@
            &&& match text.edition_nonce {
                Some(nonce) => fields[6].1 == JsonView::Number(nonce as u64),
                None => fields[6].1 == JsonView::Null,
            }
            &&& fields[7].0 == "token_standard"@
            &&& match text.token_standard {
                Some(name) => fields[7].1 == JsonView::Text(name),
                None => fields[7].1 == JsonView::Null,
            }
            &&& fields[8].0 == "collection"@
            &&& match text.collection {
                Some(collection) => fields[8].1 matches JsonView::Object(parts) && {
                    &&& parts.len() == 2
                    &&& parts[0] == ("verified"@, JsonView::Bool(collection.verified))
                    &&& parts[1] == ("key"@, JsonView::Text(collection.key))
                },
                None => fields[8].1 == JsonView::Null,
            }
            &&& fields[9].0 == "uses"@
            &&& match text.uses {
                Some(uses) => fields[9].1 matches JsonView::Object(parts) && {
                    &&& parts.len() == 3
                    &&& parts[0] == ("use_method"@, JsonView::Text(uses.use_method))
                    &&& parts[1] == ("remaining"@, JsonView::Number(uses.remaining))
                    &&& parts[2] == ("total"@, JsonView::Number(uses.total))
                },
                None => fields[9].1 == JsonView::Null,
            }
        },
{
}

proof fn lemma_distinct_part_names(creator: CreatorText, collection: CollectionText, uses: UsesText)
    ensures
        distinct_fields(creator_json(creator)->Object_0),
        distinct_fields(collection_json(collection)->Object_0),
        distinct_fields(uses_json(uses)->Object_0),
{
    reveal_strlit("address");
    reveal_strlit("verified");
    reveal_strlit("share");
    reveal_strlit("key");
    reveal_strlit("use_method");
    reveal_strlit("remaining");
    reveal_strlit("total");
    assert("address"@.len() == 7);
    assert("verified"@.len() == 8);
    assert("share"@.len() == 5);
    assert("key"@.len() == 3);
    assert("use_method"@.len() == 10);
    assert("remaining"@.len() == 9);
    assert("total"@.len() == 5);
}

/// What the short form shows of a record: its name, symbol and uri without their padding, its seller
/// fee, and an array with as many elements as the record has creators, the element at each place
/// showing the address, the verification and the share of the creator at that place.
pub proof fn lemma_short_form_of_a_record(metadata: MetadataView)
    ensures
        ({
            let json = metadata_json(metadata_text(metadata), false);
            &&& field_of(json, "name"@) == Some(JsonView::Text(trimmed(metadata.name, '\0')))
            &&& field_of(json, "symbol"@) == Some(JsonView::Text(trimmed(metadata.symbol, '\0')))
            &&& field_of(json, "uri"@) == Some(JsonView::Text(trimmed(metadata.uri, '\0')))
            &&& field_of(json, "seller_fee_basis_points"@) == Some(
                JsonView::Number(metadata.seller_fee_basis_points as u64),
            )
            &&& field_of(json, "creators"@) matches Some(JsonView::Array(items))
            &&& match metadata.creators {
                Some(creators) => {
                    &&& items.len() == creators.len()
                    &&& forall|i: int|
                        0 <= i < items.len() ==> {
                            &&& field_of(#[trigger] items[i], "address"@) == Some(
                                JsonView::Text(address_text(creators[i].address)),
                            )
                            &&& field_of(items[i], "verified"@) == Some(
                                JsonView::Bool(creators[i].verified),
                            )
                            &&& field_of(items[i], "share"@) == Some(
                                JsonView::Number(creators[i].share as u64),
                            )
                        }
                },
                None => items.len() == 0,
            }
        }),
{
    let text = metadata_text(metadata);
    let json = metadata_json(text, false);
    let fields = data_fields(text);
    lemma_distinct_field_names(text);
    lemma_last_field(fields, 0);
    lemma_last_field(fields, 1);
    lemma_last_field(fields, 2);
    lemma_last_field(fields, 3);
    lemma_last_field(fields, 4);
    let items = fields[4].1->Array_0;
    assert forall|i: int| 0 <= i < items.len() implies {
        &&& field_of(#[trigger] items[i], "address"@) == Some(
            JsonView::Text(text.creators[i].address),
        )
        &&& field_of(items[i], "verified"@) == Some(JsonView::Bool(text.creators[i].verified))
        &&& field_of(items[i], "share"@) == Some(JsonView::Number(text.creators[i].share as u64))
    } by {
        let parts = items[i]->Object_0;
        lemma_distinct_part_names(text.creators[i], arbitrary(), arbitrary());
        lemma_last_field(parts, 0);
        lemma_last_field(parts, 1);
        lemma_last_field(parts, 2);
    }
}

/// What the full form shows of a record: each field of the record under its own name with the
/// record's own value, and null for what the record does not have.
pub proof fn lemma_full_form_of_a_record(metadata: MetadataView)
    ensures
        ({
            let json = metadata_json(metadata_text(metadata), true);
            &&& field_of(json, "key"@) == Some(JsonView::Text(key_name(metadata.key)))
            &&& field_of(json, "update_authority"@) == Some(
                JsonView::Text(address_text(metadata.update_authority)),
            )
            &&& field_of(json, "mint_account"@) == Some(
                JsonView::Text(address_text(metadata.mint)),
            )
            &&& field_of(json, "nft_data"@) == Some(metadata_json(metadata_text(metadata), false))
            &&& field_of(json, "primary_sale_happened"@) == Some(
                JsonView::Bool(metadata.primary_sale_happened),
            )
            &&& field_of(json, "is_mutable"@) == Some(JsonView::Bool(metadata.is_mutable))
            &&& field_of(json, "edition_nonce"@) == Some(
                match metadata.edition_nonce {
                    Some(nonce) => JsonView::Number(nonce as u64),
                    None => JsonView::Null,
                },
            )
            &&& field_of(json, "token_standard"@) == Some(
                match metadata.token_standard {
                    Some(standard) => JsonView::Text(token_standard_name(standard)),
                    None => JsonView::Null,
                },
            )
            &&& match metadata.collection {
                Some(collection) => {
                    &&& field_of(json, "collection"@) matches Some(shown)
                    &&& field_of(shown, "verified"@) == Some(JsonView::Bool(collection.verified))
                    &&& field_of(shown, "key"@) == Some(
                        JsonView::Text(address_text(collection.key)),
                    )
                },
                None => field_of(json, "collection"@) == Some(JsonView::Null),
            }
            &&& match metadata.uses {
                Some(uses) => {
                    &&& field_of(json, "uses"@) matches Some(shown)
                    &&& field_of(shown, "use_method"@) == Some(
                        JsonView::Text(use_method_name(uses.use_method)),
                    )
                    &&& field_of(shown, "remaining"@) == Some(JsonView::Number(uses.remaining))
                    &&& field_of(shown, "total"@) == Some(JsonView::Number(uses.total))
                },
                None => field_of(json, "uses"@) == Some(JsonView::Null),
            }
        }),
{
    let text = metadata_text(metadata);
    let fields = full_fields(text);
    lemma_distinct_field_names(text);
    lemma_last_field(fields, 0);
    lemma_last_field(fields, 1);
    lemma_last_field(fields, 2);
    lemma_last_field(fields, 3);
    lemma_last_field(fields, 4);
    lemma_last_field(fields, 5);
    lemma_last_field(fields, 6);
    lemma_last_field(fields, 7);
    lemma_last_field(fields, 8);
    lemma_last_field(fields, 9);
    if text.collection is Some {
        let parts = collection_json(text.collection->Some_0)->Object_0;
        lemma_distinct_part_names(arbitrary(), text.collection->Some_0, arbitrary());
        lemma_last_field(parts, 0);
        lemma_last_field(parts, 1);
    }
    if text.uses is Some {
        let parts = uses_json(text.uses->Some_0)->Object_0;
        lemma_distinct_part_names(arbitrary(), arbitrary(), text.uses->Some_0);
        lemma_last_field(parts, 0);
        lemma_last_field(parts, 1);
        lemma_last_field(parts, 2);
    }
}

/// A path is the whole directory, a slash, the whole name and the ending, one behind the other and
/// with nothing else.
pub proof fn lemma_parts_of_a_path(output: Seq<char>, name: Seq<char>)
    ensures
        file_path(output, name).len() == output.len() + 1 + name.len() + 5,
        file_path(output, name).take(output.len() as int) == output,
        file_path(output, name)[output.len() as int] == '/',
        file_path(output, name).subrange(
            output.len() as int + 1,
            output.len() as int + 1 + name.len(),
        ) == name,
        file_path(output, name).skip(output.len() as int + 1 + name.len()) == ".json"@,
{
    reveal_strlit("/");
    reveal_strlit(".json");
    assert(".json"@.len() == 5);
    let path = file_path(output, name);
    assert(path.take(output.len() as int) =~= output);
    assert(path.subrange(output.len() as int + 1, output.len() as int + 1 + name.len()) =~= name);
    assert(path.skip(output.len() as int + 1 + name.len()) =~= ".json"@);
}

/// A file is written exactly if it could be created and then written. The first of the two steps
/// that failed is reported, with the mint account and the whole text of the cause.
pub proof fn lemma_outcome_of_a_file(mint_account: Seq<char>, cause: Seq<char>, other: Seq<char>)
    ensures
        file_outcome(mint_account, Ok(()), Ok(())) is Ok,
        file_outcome(mint_account, Ok(()), Err(cause)) == Err::<(), Seq<char>>(
            "Failed to write JSON file for mint account: "@ + mint_account + ", error: "@ + cause,
        ),
        file_outcome(mint_account, Err(cause), Ok(())) == Err::<(), Seq<char>>(
            "Failed to create JSON file for mint account: "@ + mint_account + ", error: "@ + cause,
        ),
        file_outcome(mint_account, Err(cause), Err(other)) == file_outcome(
            mint_account,
            Err(cause),
            Ok(()),
        ),
{
}

} // verus!
