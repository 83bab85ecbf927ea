//! The bytes in which a metadata record is stored: its fields one behind the other, numbers with
//! their lowest byte first, texts and lists behind their length, optional fields behind a flag and
//! enumerations by the position of their variant.

use crate::metadata::{
    CollectionDetails, CollectionView, CreatorView, Key, MetadataView, TokenStandard, UseMethod,
    Uses,
};
use vstd::bytes::{
    lemma_auto_spec_u16_to_from_le_bytes, lemma_auto_spec_u32_to_from_le_bytes,
    lemma_auto_spec_u64_to_from_le_bytes, spec_u16_to_le_bytes,
    spec_u32_from_le_bytes, spec_u32_to_le_bytes, spec_u64_from_le_bytes, spec_u64_to_le_bytes,
};
use vstd::prelude::*;
use vstd::utf8::{decode_utf8, encode_utf8, encode_utf8_decode_utf8};

verus! {

/// The position of a kind of account.
pub open spec fn key_position(key: Key) -> u8 {
    match key {
        Key::Uninitialized => 0,
        Key::EditionV1 => 1,
        Key::MasterEditionV1 => 2,
        Key::ReservationListV1 => 3,
        Key::MetadataV1 => 4,
        Key::ReservationListV2 => 5,
        Key::MasterEditionV2 => 6,
        Key::EditionMarker => 7,
        Key::UseAuthorityRecord => 8,
        Key::CollectionAuthorityRecord => 9,
    }
}

/// The position of a token standard.
pub open spec fn token_standard_position(token_standard: TokenStandard) -> u8 {
    match token_standard {
        TokenStandard::NonFungible => 0,
        TokenStandard::FungibleAsset => 1,
        TokenStandard::Fungible => 2,
        TokenStandard::NonFungibleEdition => 3,
    }
}

/// The position of a use method.
pub open spec fn use_method_position(use_method: UseMethod) -> u8 {
    match use_method {
        UseMethod::Burn => 0,
        UseMethod::Multiple => 1,
        UseMethod::Single => 2,
    }
}

/// A truth value as it is stored.
pub open spec fn flag_bytes(flag: bool) -> Seq<u8> {
    if flag {
        seq![1u8]
    } else {
        seq![0u8]
    }
}

/// A text as it is stored.
pub open spec fn text_bytes(text: Seq<char>) -> Seq<u8> {
    spec_u32_to_le_bytes(encode_utf8(text).len() as u32) + encode_utf8(text)
}

/// An optional field as it is stored.
pub open spec fn option_bytes(field: Option<Seq<u8>>) -> Seq<u8> {
    match field {
        Some(bytes) => seq![1u8] + bytes,
        None => seq![0u8],
    }
}

/// A creator as it is stored.
pub open spec fn creator_bytes(creator: CreatorView) -> Seq<u8> {
    creator.address + flag_bytes(creator.verified) + seq![creator.share]
}

/// A list of creators as it is stored.
pub open spec fn creators_bytes(creators: Seq<CreatorView>) -> Seq<u8> {
    spec_u32_to_le_bytes(creators.len() as u32) + creators.map_values(
        |creator: CreatorView| creator_bytes(creator),
    ).flatten()
}

/// A collection as it is stored.
pub open spec fn collection_bytes(collection: CollectionView) -> Seq<u8> {
    flag_bytes(collection.verified) + collection.key
}

/// The uses of a token as they are stored.
pub open spec fn uses_bytes(uses: Uses) -> Seq<u8> {
    seq![use_method_position(uses.use_method)] + spec_u64_to_le_bytes(uses.remaining)
        + spec_u64_to_le_bytes(uses.total)
}

/// The details of a collection as they are stored.
pub open spec fn details_bytes(details: CollectionDetails) -> Seq<u8> {
    match details {
        CollectionDetails::V1 { size } => seq![0u8] + spec_u64_to_le_bytes(size),
    }
}

/// The creators of a record as they are stored.
pub open spec fn optional_creators(record: MetadataView) -> Option<Seq<u8>> {
    match record.creators {
        Some(creators) => Some(creators_bytes(creators)),
        None => None,
    }
}

/// The edition nonce of a record as it is stored.
pub open spec fn optional_nonce(record: MetadataView) -> Option<Seq<u8>> {
    match record.edition_nonce {
        Some(nonce) => Some(seq![nonce]),
        None => None,
    }
}

/// The token standard of a record as it is stored.
pub open spec fn optional_token_standard(record: MetadataView) -> Option<Seq<u8>> {
    match record.token_standard {
        Some(token_standard) => Some(seq![token_standard_position(token_standard)]),
        None => None,
    }
}

/// The collection of a record as it is stored.
pub open spec fn optional_collection(record: MetadataView) -> Option<Seq<u8>> {
    match record.collection {
        Some(collection) => Some(collection_bytes(collection)),
        None => None,
    }
}

/// The uses of a record as they are stored.
pub open spec fn optional_uses(record: MetadataView) -> Option<Seq<u8>> {
    match record.uses {
        Some(uses) => Some(uses_bytes(uses)),
        None => None,
    }
}

/// The collection details of a record as they are stored.
pub open spec fn optional_details(record: MetadataView) -> Option<Seq<u8>> {
    match record.collection_details {
        Some(details) => Some(details_bytes(details)),
        None => None,
    }
}

/// The fields of a record as they are stored, in their order.
pub open spec fn stored_fields(record: MetadataView) -> Seq<Seq<u8>> {
    seq![
        seq![key_position(record.key)],
        record.update_authority,
        record.mint,
        text_bytes(record.name),
        text_bytes(record.symbol),
        text_bytes(record.uri),
        spec_u16_to_le_bytes(record.seller_fee_basis_points),
        option_bytes(optional_creators(record)),
        flag_bytes(record.primary_sale_happened),
        flag_bytes(record.is_mutable),
        option_bytes(optional_nonce(record)),
        option_bytes(optional_token_standard(record)),
        option_bytes(optional_collection(record)),
        option_bytes(optional_uses(record)),
        option_bytes(optional_details(record)),
    ]
}

/// The bytes in which a record is stored.
pub open spec fn stored_form(record: MetadataView) -> Seq<u8> {
    stored_fields(record).flatten()
}

/// Whether a record can be stored: its addresses have the size of an address, and the lengths of
/// its texts and of its list of creators fit into their fields.
pub open spec fn storable(record: MetadataView) -> bool {
    &&& record.update_authority.len() == 32
    &&& record.mint.len() == 32
    &&& encode_utf8(record.name).len() <= u32::MAX
    &&& encode_utf8(record.symbol).len() <= u32::MAX
    &&& encode_utf8(record.uri).len() <= u32::MAX
    &&& record.creators matches Some(creators) ==> {
        &&& creators.len() <= u32::MAX
        &&& forall|i: int| 0 <= i < creators.len() ==> (#[trigger] creators[i]).address.len() == 32
    }
    &&& record.collection matches Some(collection) ==> collection.key.len() == 32
}

/// Whether the data of an account is a stored record, with any bytes behind it.
pub open spec fn holds_record(data: Seq<u8>, record: MetadataView) -> bool {
    storable(record) && stored_form(record).is_prefix_of(data)
}

/// A stored record is still held when bytes follow it, such as the zeros that fill up an account.
pub proof fn lemma_padding(record: MetadataView, padding: Seq<u8>)
    requires
        storable(record),
    ensures
        holds_record(stored_form(record) + padding, record),
{
    let data = stored_form(record) + padding;
    assert(stored_form(record) =~= data.subrange(0, stored_form(record).len() as int));
}

/// Whether of two fields that two byte strings begin with, none can be a proper beginning of the
/// other.
spec fn delimited(field: Seq<u8>, other: Seq<u8>) -> bool {
    forall|rest: Seq<u8>, other_rest: Seq<u8>|
        #![trigger field + rest, other + other_rest]
        field + rest == other + other_rest ==> field == other
}

proof fn lemma_same_length(field: Seq<u8>, other: Seq<u8>)
    requires
        field.len() == other.len(),
    ensures
        delimited(field, other),
{
    assert forall|rest: Seq<u8>, other_rest: Seq<u8>|
        #![trigger field + rest, other + other_rest]
        field + rest == other + other_rest implies field == other by {
        assert(field =~= (field + rest).take(field.len() as int));
        assert(other =~= (other + other_rest).take(field.len() as int));
    }
}

proof fn lemma_text(text: Seq<char>, other: Seq<char>)
    requires
        encode_utf8(text).len() <= u32::MAX,
        encode_utf8(other).len() <= u32::MAX,
    ensures
        delimited(text_bytes(text), text_bytes(other)),
        text_bytes(text) == text_bytes(other) ==> text == other,
{
    lemma_auto_spec_u32_to_from_le_bytes();
    encode_utf8_decode_utf8(text);
    encode_utf8_decode_utf8(other);
    let bytes = encode_utf8(text);
    let other_bytes = encode_utf8(other);
    let size = spec_u32_to_le_bytes(bytes.len() as u32);
    let other_size = spec_u32_to_le_bytes(other_bytes.len() as u32);
    assert forall|rest: Seq<u8>, other_rest: Seq<u8>|
        #![trigger text_bytes(text) + rest, text_bytes(other) + other_rest]
        text_bytes(text) + rest == text_bytes(other) + other_rest implies text_bytes(text)
        == text_bytes(other) by {
        let all = text_bytes(text) + rest;
        assert(size =~= all.take(4));
        assert(other_size =~= (text_bytes(other) + other_rest).take(4));
        assert(spec_u32_from_le_bytes(size) == spec_u32_from_le_bytes(other_size));
        assert(bytes =~= all.subrange(4, 4 + bytes.len() as int));
        assert(other_bytes =~= (text_bytes(other) + other_rest).subrange(4, 4 + bytes.len() as int));
    }
    if text_bytes(text) == text_bytes(other) {
        assert(bytes =~= text_bytes(text).skip(4));
        assert(other_bytes =~= text_bytes(other).skip(4));
        assert(decode_utf8(bytes) == decode_utf8(other_bytes));
    }
}

proof fn lemma_option(field: Option<Seq<u8>>, other: Option<Seq<u8>>)
    requires
        field is Some && other is Some ==> delimited(field->Some_0, other->Some_0),
    ensures
        delimited(option_bytes(field), option_bytes(other)),
        option_bytes(field) == option_bytes(other) ==> field == other,
{
    assert forall|rest: Seq<u8>, other_rest: Seq<u8>|
        #![trigger option_bytes(field) + rest, option_bytes(other) + other_rest]
        option_bytes(field) + rest == option_bytes(other) + other_rest implies option_bytes(field)
        == option_bytes(other) by {
        let all = option_bytes(field) + rest;
        let other_all = option_bytes(other) + other_rest;
        assert(all[0] == option_bytes(field)[0]);
        assert(other_all[0] == option_bytes(other)[0]);
        if field is Some {
            assert(other is Some);
            assert(field->Some_0 + rest =~= all.skip(1));
            assert(other->Some_0 + other_rest =~= other_all.skip(1));
        } else {
            assert(other is None);
        }
    }
    if option_bytes(field) == option_bytes(other) {
        assert(option_bytes(field)[0] == option_bytes(other)[0]);
        if field is Some {
            assert(field->Some_0 =~= option_bytes(field).skip(1));
            assert(other->Some_0 =~= option_bytes(other).skip(1));
        }
    }
}

proof fn lemma_fields(fields: Seq<Seq<u8>>, others: Seq<Seq<u8>>, rest: Seq<u8>, other_rest: Seq<u8>)
    requires
        fields.len() == others.len(),
        forall|i: int| 0 <= i < fields.len() ==> delimited(#[trigger] fields[i], others[i]),
        fields.flatten() + rest == others.flatten() + other_rest,
    ensures
        fields == others,
    decreases fields.len(),
{
    if fields.len() > 0 {
        let tail = fields.drop_first();
        let other_tail = others.drop_first();
        let field = fields.first();
        let other = others.first();
        assert(fields.flatten() + rest =~= field + (tail.flatten() + rest));
        assert(others.flatten() + other_rest =~= other + (other_tail.flatten() + other_rest));
        assert(delimited(fields[0], others[0]));
        assert(tail.flatten() + rest =~= (fields.flatten() + rest).skip(field.len() as int));
        assert(other_tail.flatten() + other_rest =~= (others.flatten() + other_rest).skip(
            field.len() as int,
        ));
        assert forall|i: int| 0 <= i < tail.len() implies delimited(
            #[trigger] tail[i],
            other_tail[i],
        ) by {
            assert(tail[i] == fields[i + 1]);
            assert(other_tail[i] == others[i + 1]);
        }
        lemma_fields(tail, other_tail, rest, other_rest);
        assert(fields =~= seq![field] + tail);
        assert(others =~= seq![other] + other_tail);
    } else {
        assert(fields =~= others);
    }
}

proof fn lemma_creator(creator: CreatorView, other: CreatorView)
    requires
        creator.address.len() == 32,
        other.address.len() == 32,
    ensures
        delimited(creator_bytes(creator), creator_bytes(other)),
        creator_bytes(creator) == creator_bytes(other) ==> creator == other,
{
    lemma_same_length(creator_bytes(creator), creator_bytes(other));
    if creator_bytes(creator) == creator_bytes(other) {
        assert(creator.address =~= creator_bytes(creator).take(32));
        assert(other.address =~= creator_bytes(other).take(32));
        assert(creator_bytes(creator)[32] == creator_bytes(other)[32]);
        assert(creator_bytes(creator)[33] == creator_bytes(other)[33]);
    }
}

proof fn lemma_creators(creators: Seq<CreatorView>, others: Seq<CreatorView>)
    requires
        creators.len() <= u32::MAX,
        others.len() <= u32::MAX,
        forall|i: int| 0 <= i < creators.len() ==> (#[trigger] creators[i]).address.len() == 32,
        forall|i: int| 0 <= i < others.len() ==> (#[trigger] others[i]).address.len() == 32,
    ensures
        delimited(creators_bytes(creators), creators_bytes(others)),
        creators_bytes(creators) == creators_bytes(others) ==> creators == others,
{
    lemma_auto_spec_u32_to_from_le_bytes();
    let fields = creators.map_values(|creator: CreatorView| creator_bytes(creator));
    let other_fields = others.map_values(|creator: CreatorView| creator_bytes(creator));
    let size = spec_u32_to_le_bytes(creators.len() as u32);
    let other_size = spec_u32_to_le_bytes(others.len() as u32);
    let bytes = creators_bytes(creators);
    let other_bytes = creators_bytes(others);
    assert forall|rest: Seq<u8>, other_rest: Seq<u8>|
        #![trigger bytes + rest, other_bytes + other_rest]
        bytes + rest == other_bytes + other_rest implies creators == others by {
        assert(size =~= (bytes + rest).take(4));
        assert(other_size =~= (other_bytes + other_rest).take(4));
        assert(spec_u32_from_le_bytes(size) == spec_u32_from_le_bytes(other_size));
        assert(creators.len() == others.len());
        assert(fields.flatten() + rest =~= (bytes + rest).skip(4));
        assert(other_fields.flatten() + other_rest =~= (other_bytes + other_rest).skip(4));
        assert forall|i: int| 0 <= i < fields.len() implies delimited(
            #[trigger] fields[i],
            other_fields[i],
        ) by {
            lemma_creator(creators[i], others[i]);
        }
        lemma_fields(fields, other_fields, rest, other_rest);
        assert forall|i: int| 0 <= i < creators.len() implies creators[i] == others[i] by {
            assert(fields[i] == other_fields[i]);
            lemma_creator(creators[i], others[i]);
        }
        assert(creators =~= others);
    }
    if bytes == other_bytes {
        assert(bytes + Seq::<u8>::empty() == other_bytes + Seq::<u8>::empty());
    }
}

proof fn lemma_collection(collection: CollectionView, other: CollectionView)
    requires
        collection.key.len() == 32,
        other.key.len() == 32,
    ensures
        delimited(collection_bytes(collection), collection_bytes(other)),
        collection_bytes(collection) == collection_bytes(other) ==> collection == other,
{
    lemma_same_length(collection_bytes(collection), collection_bytes(other));
    if collection_bytes(collection) == collection_bytes(other) {
        assert(collection_bytes(collection)[0] == collection_bytes(other)[0]);
        assert(collection.key =~= collection_bytes(collection).skip(1));
        assert(other.key =~= collection_bytes(other).skip(1));
    }
}

proof fn lemma_uses(uses: Uses, other: Uses)
    ensures
        delimited(uses_bytes(uses), uses_bytes(other)),
        uses_bytes(uses) == uses_bytes(other) ==> uses == other,
{
    lemma_auto_spec_u64_to_from_le_bytes();
    lemma_same_length(uses_bytes(uses), uses_bytes(other));
    if uses_bytes(uses) == uses_bytes(other) {
        assert(uses_bytes(uses)[0] == uses_bytes(other)[0]);
        assert(spec_u64_to_le_bytes(uses.remaining) =~= uses_bytes(uses).subrange(1, 9));
        assert(spec_u64_to_le_bytes(other.remaining) =~= uses_bytes(other).subrange(1, 9));
        assert(spec_u64_to_le_bytes(uses.total) =~= uses_bytes(uses).subrange(9, 17));
        assert(spec_u64_to_le_bytes(other.total) =~= uses_bytes(other).subrange(9, 17));
        assert(spec_u64_from_le_bytes(spec_u64_to_le_bytes(uses.remaining)) == uses.remaining);
        assert(spec_u64_from_le_bytes(spec_u64_to_le_bytes(uses.total)) == uses.total);
    }
}

proof fn lemma_details(details: CollectionDetails, other: CollectionDetails)
    ensures
        delimited(details_bytes(details), details_bytes(other)),
        details_bytes(details) == details_bytes(other) ==> details == other,
{
    lemma_auto_spec_u64_to_from_le_bytes();
    lemma_same_length(details_bytes(details), details_bytes(other));
    if details_bytes(details) == details_bytes(other) {
        let CollectionDetails::V1 { size } = details;
        let CollectionDetails::V1 { size: other_size } = other;
        assert(spec_u64_to_le_bytes(size) =~= details_bytes(details).skip(1));
        assert(spec_u64_to_le_bytes(other_size) =~= details_bytes(other).skip(1));
        assert(spec_u64_from_le_bytes(spec_u64_to_le_bytes(size)) == size);
    }
}

proof fn lemma_byte(byte: u8, other: u8)
    ensures
        delimited(seq![byte], seq![other]),
        seq![byte] == seq![other] ==> byte == other,
{
    lemma_same_length(seq![byte], seq![other]);
    assert(seq![byte][0] == byte);
    assert(seq![other][0] == other);
}

proof fn lemma_optional_creators(record: MetadataView, other: MetadataView)
    requires
        storable(record),
        storable(other),
    ensures
        delimited(option_bytes(optional_creators(record)), option_bytes(optional_creators(other))),
        option_bytes(optional_creators(record)) == option_bytes(optional_creators(other)) ==> record.creators
            == other.creators,
{
    if record.creators is Some && other.creators is Some {
        lemma_creators(record.creators->Some_0, other.creators->Some_0);
    }
    lemma_option(optional_creators(record), optional_creators(other));
}

proof fn lemma_optional_nonce(record: MetadataView, other: MetadataView)
    ensures
        delimited(option_bytes(optional_nonce(record)), option_bytes(optional_nonce(other))),
        option_bytes(optional_nonce(record)) == option_bytes(optional_nonce(other)) ==> record.edition_nonce
            == other.edition_nonce,
{
    if record.edition_nonce is Some && other.edition_nonce is Some {
        lemma_byte(record.edition_nonce->Some_0, other.edition_nonce->Some_0);
    }
    lemma_option(optional_nonce(record), optional_nonce(other));
}

proof fn lemma_optional_token_standard(record: MetadataView, other: MetadataView)
    ensures
        delimited(option_bytes(optional_token_standard(record)), option_bytes(optional_token_standard(other))),
        option_bytes(optional_token_standard(record)) == option_bytes(optional_token_standard(other)) ==> record.token_standard
            == other.token_standard,
{
    if record.token_standard is Some && other.token_standard is Some {
        lemma_byte(
            token_standard_position(record.token_standard->Some_0),
            token_standard_position(other.token_standard->Some_0),
        );
    }
    lemma_option(optional_token_standard(record), optional_token_standard(other));
}

proof fn lemma_optional_collection(record: MetadataView, other: MetadataView)
    requires
        storable(record),
        storable(other),
    ensures
        delimited(option_bytes(optional_collection(record)), option_bytes(optional_collection(other))),
        option_bytes(optional_collection(record)) == option_bytes(optional_collection(other)) ==> record.collection
            == other.collection,
{
    if record.collection is Some && other.collection is Some {
        lemma_collection(record.collection->Some_0, other.collection->Some_0);
    }
    lemma_option(optional_collection(record), optional_collection(other));
}

proof fn lemma_optional_uses(record: MetadataView, other: MetadataView)
    ensures
        delimited(option_bytes(optional_uses(record)), option_bytes(optional_uses(other))),
        option_bytes(optional_uses(record)) == option_bytes(optional_uses(other)) ==> record.uses
            == other.uses,
{
    if record.uses is Some && other.uses is Some {
        lemma_uses(record.uses->Some_0, other.uses->Some_0);
    }
    lemma_option(optional_uses(record), optional_uses(other));
}

proof fn lemma_optional_details(record: MetadataView, other: MetadataView)
    ensures
        delimited(option_bytes(optional_details(record)), option_bytes(optional_details(other))),
        option_bytes(optional_details(record)) == option_bytes(optional_details(other)) ==> record.collection_details
            == other.collection_details,
{
    if record.collection_details is Some && other.collection_details is Some {
        lemma_details(record.collection_details->Some_0, other.collection_details->Some_0);
    }
    lemma_option(optional_details(record), optional_details(other));
}

proof fn lemma_field(record: MetadataView, other: MetadataView, i: int)
    requires
        storable(record),
        storable(other),
        0 <= i < 15,
    ensures
        delimited(stored_fields(record)[i], stored_fields(other)[i]),
{
    lemma_auto_spec_u16_to_from_le_bytes();
    if i == 3 {
        lemma_text(record.name, other.name);
    } else if i == 4 {
        lemma_text(record.symbol, other.symbol);
    } else if i == 5 {
        lemma_text(record.uri, other.uri);
    } else if i == 7 {
        lemma_optional_creators(record, other);
    } else if i == 10 {
        lemma_optional_nonce(record, other);
    } else if i == 11 {
        lemma_optional_token_standard(record, other);
    } else if i == 12 {
        lemma_optional_collection(record, other);
    } else if i == 13 {
        lemma_optional_uses(record, other);
    } else if i == 14 {
        lemma_optional_details(record, other);
    } else {
        lemma_same_length(stored_fields(record)[i], stored_fields(other)[i]);
    }
}

/// The data of an account holds at most one record.
pub proof fn lemma_holds_one_record(data: Seq<u8>, record: MetadataView, other: MetadataView)
    requires
        holds_record(data, record),
        holds_record(data, other),
    ensures
        record == other,
{
    lemma_auto_spec_u16_to_from_le_bytes();
    let fields = stored_fields(record);
    let others = stored_fields(other);
    let rest = data.skip(stored_form(record).len() as int);
    let other_rest = data.skip(stored_form(other).len() as int);
    assert(stored_form(record) + rest =~= data);
    assert(stored_form(other) + other_rest =~= data);
    assert forall|i: int| 0 <= i < fields.len() implies delimited(
        #[trigger] fields[i],
        others[i],
    ) by {
        lemma_field(record, other, i);
    }
    lemma_fields(fields, others, rest, other_rest);
    assert(fields[0][0] == others[0][0]);
    assert(record.key == other.key);
    assert(record.update_authority == fields[1] && other.update_authority == others[1]);
    assert(record.mint == fields[2] && other.mint == others[2]);
    assert(record.name == other.name) by {
        assert(fields[3] == others[3]);
        lemma_text(record.name, other.name);
    }
    assert(record.symbol == other.symbol) by {
        assert(fields[4] == others[4]);
        lemma_text(record.symbol, other.symbol);
    }
    assert(record.uri == other.uri) by {
        assert(fields[5] == others[5]);
        lemma_text(record.uri, other.uri);
    }
    assert(record.seller_fee_basis_points == other.seller_fee_basis_points) by {
        let fee = spec_u16_to_le_bytes(record.seller_fee_basis_points);
        let other_fee = spec_u16_to_le_bytes(other.seller_fee_basis_points);
        assert(fields[6] == fee && others[6] == other_fee);
        assert(fee.len() == other_fee.len());
    }
    assert(record.creators == other.creators) by {
        assert(fields[7] == others[7]);
        lemma_optional_creators(record, other);
    }
    assert(fields[8][0] == others[8][0]);
    assert(record.primary_sale_happened == other.primary_sale_happened);
    assert(fields[9][0] == others[9][0]);
    assert(record.is_mutable == other.is_mutable);
    assert(record.edition_nonce == other.edition_nonce) by {
        assert(fields[10] == others[10]);
        lemma_optional_nonce(record, other);
    }
    assert(record.token_standard == other.token_standard) by {
        assert(fields[11] == others[11]);
        lemma_optional_token_standard(record, other);
    }
    assert(record.collection == other.collection) by {
        assert(fields[12] == others[12]);
        lemma_optional_collection(record, other);
    }
    assert(record.uses == other.uses) by {
        assert(fields[13] == others[13]);
        lemma_optional_uses(record, other);
    }
    assert(record.collection_details == other.collection_details) by {
        assert(fields[14] == others[14]);
        lemma_optional_details(record, other);
    }
}

} // verus!
