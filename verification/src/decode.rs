//! Decoding of one account: what is asked of the network, and what is made of the reply.

use crate::address::{
    address_option, address_text, lemma_metadata_account_of_a_mint, metadata_pda, parse_address, parsed_address, program_address,
    try_get_metadata_pda, Address, AddressError, METAPLEX_PROGRAM_ID,
};
use crate::error::{DecodeError, ErrorView};
use crate::json::JsonValue;
use crate::metadata::{
    decoded_metadata, deserialize_metadata, read_view, Metadata, MetadataView,
};
use crate::nft::{
    addresses_read_back, decode_to_json, file_path, json_file_path, metadata_json, metadata_text,
};
use crate::stored::holds_record;
use vstd::prelude::*;
use vstd::string::StringSliceAdditionalSpecFns;

verus! {

/// The results of a list of decodes.
pub type DecodeResults = Vec<Result<Metadata, DecodeError>>;

/// The value of a reply of the network: the data of an account, or the text of the error.
pub open spec fn reply_view(reply: Result<Vec<u8>, String>) -> Result<Seq<u8>, Seq<char>> {
    match reply {
        Ok(data) => Ok(data@),
        Err(cause) => Err(cause@),
    }
}

/// The value of the outcome of fetching an account.
pub open spec fn data_view(data: Result<Vec<u8>, DecodeError>) -> Result<Seq<u8>, ErrorView> {
    match data {
        Ok(data) => Ok(data@),
        Err(error) => Err(error@),
    }
}

/// The value of the outcome of a decode.
pub open spec fn decode_view(metadata: Result<Metadata, DecodeError>) -> Result<
    MetadataView,
    ErrorView,
> {
    match metadata {
        Ok(metadata) => Ok(metadata@),
        Err(error) => Err(error@),
    }
}

/// What is asked of the network for the text of a mint account: the address of its metadata
/// account.
pub open spec fn request_for(mint_account: Seq<char>) -> Result<Option<Seq<u8>>, ErrorView> {
    match parsed_address(mint_account) {
        Ok(mint) => Ok(metadata_pda(mint)),
        Err(_) => Err(ErrorView::PubkeyParseFailed(mint_account)),
    }
}

/// The value of a request.
pub open spec fn request_view(request: Result<Option<Address>, DecodeError>) -> Result<
    Option<Seq<u8>>,
    ErrorView,
> {
    match request {
        Ok(address) => Ok(address_option(address)),
        Err(error) => Err(error@),
    }
}

/// The outcome of fetching the account `account` when the network gave `reply`.
pub open spec fn fetched(account: Seq<char>, reply: Result<Seq<u8>, Seq<char>>) -> Result<
    Seq<u8>,
    ErrorView,
> {
    match reply {
        Ok(data) => Ok(data),
        Err(cause) => Err(ErrorView::NetworkError(account, cause)),
    }
}

/// The outcome of a decode of the account `account` when its data was read as `read`.
pub open spec fn interpreted(account: Seq<char>, read: Result<MetadataView, Seq<char>>) -> Result<
    MetadataView,
    ErrorView,
> {
    match read {
        Ok(metadata) => Ok(metadata),
        Err(cause) => Err(ErrorView::DecodeMetadataFailed(account, cause)),
    }
}

/// The data of the metadata account of a mint account when the network gave `reply`.
pub open spec fn raw_outcome(
    mint_account: Seq<char>,
    reply: Result<Seq<u8>, Seq<char>>,
) -> Result<Seq<u8>, ErrorView> {
    match parsed_address(mint_account) {
        Ok(_) => fetched(mint_account, reply),
        Err(_) => Err(ErrorView::PubkeyParseFailed(mint_account)),
    }
}

/// The metadata of a mint account when the network gave `reply`.
pub open spec fn decode_outcome(
    mint_account: Seq<char>,
    reply: Result<Seq<u8>, Seq<char>>,
) -> Result<MetadataView, ErrorView> {
    match raw_outcome(mint_account, reply) {
        Ok(data) => interpreted(mint_account, decoded_metadata(data)),
        Err(error) => Err(error),
    }
}

/// The address that the text of a mint account was read as, or the error of the decode.
pub fn key_or_error(mint_account: &str, key: Result<Address, AddressError>) -> (address: Result<
    Address,
    DecodeError,
>)
    ensures
        match key {
            Ok(bytes) => address matches Ok(found) && found == bytes,
            Err(_) => address matches Err(error) && error@ == ErrorView::PubkeyParseFailed(
                mint_account@,
            ),
        },
        key is Err ==> (address matches Err(DecodeError::PubkeyParseFailed(account)) && account@
            == mint_account@),
{
    match key {
        Ok(bytes) => Ok(bytes),
        Err(_) => Err(DecodeError::PubkeyParseFailed(mint_account.to_owned())),
    }
}

/// The data that the network gave for an account, or the error of the decode.
pub fn data_or_error(account: &str, reply: Result<Vec<u8>, String>) -> (data: Result<
    Vec<u8>,
    DecodeError,
>)
    ensures
        data_view(data) == fetched(account@, reply_view(reply)),
        match reply {
            Ok(given) => data matches Ok(found) && found@ == given@,
            Err(cause) => data matches Err(DecodeError::NetworkError(asked, text)) && asked@
                == account@ && text@ == cause@,
        },
{
    match reply {
        Ok(data) => Ok(data),
        Err(cause) => Err(DecodeError::NetworkError(account.to_owned(), cause)),
    }
}

/// The record that the data of an account was read as, or the error of the decode.
pub fn metadata_or_error(account: &str, read: Result<Metadata, String>) -> (metadata: Result<
    Metadata,
    DecodeError,
>)
    ensures
        decode_view(metadata) == interpreted(account@, read_view(read)),
        match read {
            Ok(record) => metadata matches Ok(found) && found == record,
            Err(cause) => metadata matches Err(DecodeError::DecodeMetadataFailed(asked, text))
                && asked@ == account@ && text@ == cause@,
        },
{
    match read {
        Ok(metadata) => Ok(metadata),
        Err(cause) => Err(DecodeError::DecodeMetadataFailed(account.to_owned(), cause)),
    }
}

/// The address to ask the network for, to decode a mint account. There is none where no metadata
/// account can be derived.
pub fn metadata_request(mint_account: &str) -> (request: Result<Option<Address>, DecodeError>)
    ensures
        request_view(request) == request_for(mint_account@),
        match parsed_address(mint_account@) {
            Ok(mint) => request matches Ok(address) && match (
                parsed_address(METAPLEX_PROGRAM_ID@),
                address,
            ) {
                (Ok(program), Some(bytes)) => program_address(
                    seq!["metadata".spec_bytes(), program, mint],
                    program,
                ) == Some(bytes@),
                (Ok(program), None) => program_address(
                    seq!["metadata".spec_bytes(), program, mint],
                    program,
                ) is None,
                (Err(_), _) => address is None,
            },
            Err(_) => request matches Err(DecodeError::PubkeyParseFailed(account)) && account@
                == mint_account@,
        },
{
    match key_or_error(mint_account, parse_address(mint_account)) {
        Ok(mint) => Ok(try_get_metadata_pda(mint)),
        Err(error) => Err(error),
    }
}

/// The data of the metadata account of a mint account, given the network's reply to
/// [`metadata_request`]. A mint account that is read as an address is the text of that address.
pub fn decode_raw(mint_account: &str, reply: Result<Vec<u8>, String>) -> (data: Result<
    Vec<u8>,
    DecodeError,
>)
    ensures
        data_view(data) == raw_outcome(mint_account@, reply_view(reply)),
        match (parsed_address(mint_account@), reply) {
            (Ok(_), Ok(given)) => data matches Ok(found) && found@ == given@,
            (Ok(_), Err(cause)) => data matches Err(DecodeError::NetworkError(account, text))
                && account@ == mint_account@ && text@ == cause@,
            (Err(_), _) => data matches Err(DecodeError::PubkeyParseFailed(account)) && account@
                == mint_account@,
        },
        parsed_address(mint_account@) matches Ok(mint) ==> address_text(mint) == mint_account@,
{
    let key = parse_address(mint_account);
    match key_or_error(mint_account, key) {
        Ok(_) => data_or_error(mint_account, reply),
        Err(error) => Err(error),
    }
}

/// As [`decode_raw`].
pub fn async_decode_raw(mint_account: &str, reply: Result<Vec<u8>, String>) -> (data: Result<
    Vec<u8>,
    DecodeError,
>)
    ensures
        data_view(data) == raw_outcome(mint_account@, reply_view(reply)),
        match (parsed_address(mint_account@), reply) {
            (Ok(_), Ok(given)) => data matches Ok(found) && found@ == given@,
            (Ok(_), Err(cause)) => data matches Err(DecodeError::NetworkError(account, text))
                && account@ == mint_account@ && text@ == cause@,
            (Err(_), _) => data matches Err(DecodeError::PubkeyParseFailed(account)) && account@
                == mint_account@,
        },
        parsed_address(mint_account@) matches Ok(mint) ==> address_text(mint) == mint_account@,
{
    decode_raw(mint_account, reply)
}

/// The metadata of a mint account, given the network's reply to [`metadata_request`]. A mint
/// account that is read as an address is the text of that address, and the record that its metadata
/// account holds is given, whatever the bytes behind the record are.
pub fn decode(mint_account: &str, reply: Result<Vec<u8>, String>) -> (metadata: Result<
    Metadata,
    DecodeError,
>)
    ensures
        decode_view(metadata) == decode_outcome(mint_account@, reply_view(reply)),
        match (parsed_address(mint_account@), reply) {
            (Ok(_), Ok(data)) => match decoded_metadata(data@) {
                Ok(record) => metadata matches Ok(found) && found@ == record,
                Err(cause) => metadata matches Err(DecodeError::DecodeMetadataFailed(account, text))
                    && account@ == mint_account@ && text@ == cause,
            },
            (Ok(_), Err(cause)) => metadata matches Err(DecodeError::NetworkError(account, text))
                && account@ == mint_account@ && text@ == cause@,
            (Err(_), _) => metadata matches Err(DecodeError::PubkeyParseFailed(account)) && account@
                == mint_account@,
        },
        parsed_address(mint_account@) matches Ok(mint) ==> address_text(mint) == mint_account@,
        parsed_address(mint_account@) is Ok && reply is Ok ==> forall|record: MetadataView| #[trigger]
            holds_record(reply->Ok_0@, record) ==> (metadata matches Ok(found) && found@ == record),
{
    match decode_raw(mint_account, reply) {
        Ok(data) => metadata_or_error(mint_account, deserialize_metadata(data.as_slice())),
        Err(error) => Err(error),
    }
}

/// As [`decode`].
pub fn async_decode(mint_account: String, reply: Result<Vec<u8>, String>) -> (metadata: Result<
    Metadata,
    DecodeError,
>)
    ensures
        decode_view(metadata) == decode_outcome(mint_account@, reply_view(reply)),
        match (parsed_address(mint_account@), reply) {
            (Ok(_), Ok(data)) => match decoded_metadata(data@) {
                Ok(record) => metadata matches Ok(found) && found@ == record,
                Err(cause) => metadata matches Err(DecodeError::DecodeMetadataFailed(account, text))
                    && account@ == mint_account@ && text@ == cause,
            },
            (Ok(_), Err(cause)) => metadata matches Err(DecodeError::NetworkError(account, text))
                && account@ == mint_account@ && text@ == cause@,
            (Err(_), _) => metadata matches Err(DecodeError::PubkeyParseFailed(account)) && account@
                == mint_account@,
        },
        parsed_address(mint_account@) matches Ok(mint) ==> address_text(mint) == mint_account@,
        parsed_address(mint_account@) is Ok && reply is Ok ==> forall|record: MetadataView| #[trigger]
            holds_record(reply->Ok_0@, record) ==> (metadata matches Ok(found) && found@ == record),
{
    decode(mint_account.as_str(), reply)
}

/// Why the record of a metadata account could not be had.
#[derive(Debug, PartialEq, Eq)]
pub enum AccountError {
    Address(AddressError),
    Decode(DecodeError),
}

/// The mathematical value of an [`AccountError`].
pub enum AccountErrorView {
    Address(AddressError),
    Decode(ErrorView),
}

impl View for AccountError {
    type V = AccountErrorView;

    open spec fn view(&self) -> AccountErrorView {
        match self {
            AccountError::Address(error) => AccountErrorView::Address(*error),
            AccountError::Decode(error) => AccountErrorView::Decode(error@),
        }
    }
}

/// The value of the outcome of a decode of a metadata account.
pub open spec fn account_view(metadata: Result<Metadata, AccountError>) -> Result<
    MetadataView,
    AccountErrorView,
> {
    match metadata {
        Ok(metadata) => Ok(metadata@),
        Err(error) => Err(error@),
    }
}

/// The record of the metadata account with this address when the network gave `reply`.
pub open spec fn account_outcome(
    metadata_address: Seq<char>,
    reply: Result<Seq<u8>, Seq<char>>,
) -> Result<MetadataView, AccountErrorView> {
    match parsed_address(metadata_address) {
        Err(error) => Err(AccountErrorView::Address(error)),
        Ok(_) => match fetched(metadata_address, reply) {
            Err(error) => Err(AccountErrorView::Decode(error)),
            Ok(data) => match interpreted(metadata_address, decoded_metadata(data)) {
                Err(error) => Err(AccountErrorView::Decode(error)),
                Ok(metadata) => Ok(metadata),
            },
        },
    }
}

/// The address to ask the network for, to decode the metadata account with this address.
pub fn account_request(metadata_address: &str) -> (address: Result<Address, AddressError>)
    ensures
        match address {
            Ok(bytes) => parsed_address(metadata_address@) == Ok::<Seq<u8>, AddressError>(bytes@),
            Err(error) => parsed_address(metadata_address@) == Err::<Seq<u8>, AddressError>(error),
        },
{
    parse_address(metadata_address)
}

/// The record of the metadata account with this address, given the network's reply to
/// [`account_request`]. The record that the account holds is given, whatever the bytes behind it
/// are.
pub fn decode_from_metadata(metadata_address: &str, reply: Result<Vec<u8>, String>) -> (metadata:
    Result<Metadata, AccountError>)
    ensures
        account_view(metadata) == account_outcome(metadata_address@, reply_view(reply)),
        match (parsed_address(metadata_address@), reply) {
            (Ok(_), Ok(data)) => match decoded_metadata(data@) {
                Ok(record) => metadata matches Ok(found) && found@ == record,
                Err(cause) => metadata matches Err(
                    AccountError::Decode(DecodeError::DecodeMetadataFailed(account, text)),
                ) && account@ == metadata_address@ && text@ == cause,
            },
            (Ok(_), Err(cause)) => metadata matches Err(
                AccountError::Decode(DecodeError::NetworkError(account, text)),
            ) && account@ == metadata_address@ && text@ == cause@,
            (Err(error), _) => metadata matches Err(AccountError::Address(found)) && found == error,
        },
        parsed_address(metadata_address@) is Ok && reply is Ok ==> forall|record: MetadataView| #[trigger]
            holds_record(reply->Ok_0@, record) ==> (metadata matches Ok(found) && found@ == record),
{
    match parse_address(metadata_address) {
        Err(error) => Err(AccountError::Address(error)),
        Ok(_) => match data_or_error(metadata_address, reply) {
            Err(error) => Err(AccountError::Decode(error)),
            Ok(data) => {
                let read = deserialize_metadata(data.as_slice());
                match metadata_or_error(metadata_address, read) {
                    Err(error) => Err(AccountError::Decode(error)),
                    Ok(metadata) => Ok(metadata),
                }
            },
        },
    }
}

/// Whether exactly one of two options is given.
pub fn is_only_one_option<T, U>(option1: &Option<T>, option2: &Option<U>) -> (only_one: bool)
    ensures
        only_one == (option1 is Some != option2 is Some),
{
    match (option1, option2) {
        (Some(_), None) => true,
        (None, Some(_)) => true,
        _ => false,
    }
}

/// What a decode was asked to do.
#[derive(Debug, PartialEq, Eq)]
pub enum DecodePlan {
    /// Show the data of the metadata account of one mint account.
    Raw(String),
    /// Write the JSON form of the metadata of one mint account.
    Single(String),
    /// Write the JSON form of the metadata of each mint account of a list.
    List(String),
}

/// The mathematical value of a [`DecodePlan`].
pub enum PlanView {
    Raw(Seq<char>),
    Single(Seq<char>),
    List(Seq<char>),
}

impl View for DecodePlan {
    type V = PlanView;

    open spec fn view(&self) -> PlanView {
        match self {
            DecodePlan::Raw(mint_account) => PlanView::Raw(mint_account@),
            DecodePlan::Single(mint_account) => PlanView::Single(mint_account@),
            DecodePlan::List(path) => PlanView::List(path@),
        }
    }
}

/// Decides what a decode has to do: either a mint account or a list of mint accounts has to be
/// given. Raw data is shown of a single account only.
pub fn decode_metadata(
    account: Option<&String>,
    list_path: Option<&String>,
    raw: bool,
) -> (plan: Result<DecodePlan, String>)
    ensures
        match (account, list_path) {
            (Some(mint_account), None) => plan matches Ok(plan) && plan@ == if raw {
                PlanView::Raw(mint_account@)
            } else {
                PlanView::Single(mint_account@)
            },
            (None, Some(path)) => plan matches Ok(plan) && plan@ == PlanView::List(path@),
            _ => plan matches Err(text) && text@
                == "Please specify either a mint account or a list of mint accounts, but not both."@,
        },
        account is Some && list_path is None && raw ==> (plan matches Ok(DecodePlan::Raw(asked))
            && asked@ == account->Some_0@),
        account is Some && list_path is None && !raw ==> (plan matches Ok(
            DecodePlan::Single(asked),
        ) && asked@ == account->Some_0@),
        account is None && list_path is Some ==> (plan matches Ok(DecodePlan::List(path)) && path@
            == list_path->Some_0@),
{
    if !is_only_one_option(&account, &list_path) {
        return Err(
            "Please specify either a mint account or a list of mint accounts, but not both."
                .to_owned(),
        );
    }
    if let Some(mint_account) = account {
        if raw {
            Ok(DecodePlan::Raw(mint_account.clone()))
        } else {
            Ok(DecodePlan::Single(mint_account.clone()))
        }
    } else if let Some(path) = list_path {
        Ok(DecodePlan::List(path.clone()))
    } else {
        Err(
            "Please specify either a mint account or a list of mint accounts, but not both."
                .to_owned(),
        )
    }
}

/// The file that the metadata of a single mint account is written to, which is named as the
/// account was given, and the JSON that is written.
pub fn single_file(mint_account: &str, metadata: Metadata, full: bool, output: &str) -> (file: (
    String,
    JsonValue,
))
    ensures
        file.0@ == file_path(output@, mint_account@),
        file.0@ == output@ + "/"@ + mint_account@ + ".json"@,
        file.1@ == metadata_json(metadata_text(metadata@), full),
        addresses_read_back(metadata_text(metadata@), metadata@),
{
    (json_file_path(output, mint_account), decode_to_json(metadata, full))
}

/// Every error of a decode names the mint account that the decode was asked for.
pub proof fn lemma_errors_name_the_account(
    mint_account: Seq<char>,
    reply: Result<Seq<u8>, Seq<char>>,
)
    ensures
        decode_outcome(mint_account, reply) matches Err(error) ==> error.account() == mint_account,
        raw_outcome(mint_account, reply) matches Err(error) ==> error.account() == mint_account,
        request_for(mint_account) matches Err(error) ==> error.account() == mint_account,
{
}

/// A mint account whose text is no address is refused before anything is asked of the network,
/// and with the same error whatever a reply would be.
pub proof fn lemma_refused_before_asking(mint_account: Seq<char>, reply: Result<Seq<u8>, Seq<char>>)
    ensures
        request_for(mint_account) is Err <==> parsed_address(mint_account) is Err,
        request_for(mint_account) matches Err(error) ==> {
            &&& raw_outcome(mint_account, reply) == Err::<Seq<u8>, ErrorView>(error)
            &&& decode_outcome(mint_account, reply) == Err::<MetadataView, ErrorView>(error)
        },
{
}

/// A decode succeeds exactly where the raw data can be had and is a record, and gives that record.
pub proof fn lemma_decode_reads_raw(mint_account: Seq<char>, reply: Result<Seq<u8>, Seq<char>>)
    ensures
        decode_outcome(mint_account, reply) is Ok <==> {
            &&& raw_outcome(mint_account, reply) is Ok
            &&& decoded_metadata(raw_outcome(mint_account, reply)->Ok_0) is Ok
        },
        decode_outcome(mint_account, reply) matches Ok(metadata) ==> decoded_metadata(
            raw_outcome(mint_account, reply)->Ok_0,
        ) == Ok::<MetadataView, Seq<char>>(metadata),
{
}

/// To decode a mint account, the network is asked for the address that the token metadata program
/// derives from the text `metadata`, its own address and the bytes of that mint, and for no other.
pub proof fn lemma_request_is_for_the_mint(
    mint_account: Seq<char>,
    mint: Seq<u8>,
    program: Seq<u8>,
    seeds: Seq<Seq<u8>>,
)
    ensures
        ({
            &&& parsed_address(mint_account) == Ok::<Seq<u8>, AddressError>(mint)
            &&& parsed_address(METAPLEX_PROGRAM_ID@) == Ok::<Seq<u8>, AddressError>(program)
            &&& seeds.len() == 3
            &&& seeds[0] == "metadata".spec_bytes()
            &&& seeds[1] == program
            &&& seeds[2].len() == mint.len()
            &&& forall|i: int| 0 <= i < mint.len() ==> #[trigger] seeds[2][i] == mint[i]
        }) ==> request_for(mint_account) == Ok::<Option<Seq<u8>>, ErrorView>(
            program_address(seeds, program),
        ),
        parsed_address(mint_account) is Err ==> request_for(mint_account) == Err::<
            Option<Seq<u8>>,
            ErrorView,
        >(ErrorView::PubkeyParseFailed(mint_account)),
{
    lemma_metadata_account_of_a_mint(program, mint, seeds);
}

/// The raw data of a mint account is what the network gave, to the last byte: as long, and the same
/// at every place. A reply without data is handed on with the whole text of its cause.
pub proof fn lemma_raw_data_is_the_reply(mint_account: Seq<char>, data: Seq<u8>, cause: Seq<char>)
    ensures
        parsed_address(mint_account) is Ok ==> {
            &&& raw_outcome(mint_account, Ok(data)) matches Ok(shown)
            &&& shown.len() == data.len()
            &&& forall|i: int| 0 <= i < data.len() ==> #[trigger] shown[i] == data[i]
        },
        parsed_address(mint_account) is Ok ==> raw_outcome(mint_account, Err(cause)) == Err::<
            Seq<u8>,
            ErrorView,
        >(ErrorView::NetworkError(mint_account, cause)),
        parsed_address(mint_account) is Err ==> raw_outcome(mint_account, Ok(data)) == Err::<
            Seq<u8>,
            ErrorView,
        >(ErrorView::PubkeyParseFailed(mint_account)),
{
}

/// The outcome of a decode is what its data was read as; the same data gives the same record under
/// every mint account, and to decode the raw data of a mint account is to decode the mint account.
pub proof fn lemma_decode_is_of_the_reply(
    mint_account: Seq<char>,
    other: Seq<char>,
    data: Seq<u8>,
    cause: Seq<char>,
)
    ensures
        parsed_address(mint_account) is Ok ==> match decoded_metadata(data) {
            Ok(record) => decode_outcome(mint_account, Ok(data)) == Ok::<MetadataView, ErrorView>(
                record,
            ),
            Err(text) => decode_outcome(mint_account, Ok(data)) == Err::<MetadataView, ErrorView>(
                ErrorView::DecodeMetadataFailed(mint_account, text),
            ),
        },
        parsed_address(mint_account) is Ok ==> decode_outcome(mint_account, Err(cause)) == Err::<
            MetadataView,
            ErrorView,
        >(ErrorView::NetworkError(mint_account, cause)),
        parsed_address(mint_account) is Ok && parsed_address(other) is Ok && decode_outcome(
            mint_account,
            Ok(data),
        ) is Ok ==> decode_outcome(other, Ok(data)) == decode_outcome(mint_account, Ok(data)),
        raw_outcome(mint_account, Ok(data)) matches Ok(shown) ==> decode_outcome(
            mint_account,
            Ok(shown),
        ) == decode_outcome(mint_account, Ok(data)),
        match (parsed_address(mint_account), decoded_metadata(data)) {
            (Ok(_), Ok(record)) => account_outcome(mint_account, Ok(data)) == Ok::<
                MetadataView,
                AccountErrorView,
            >(record),
            (Ok(_), Err(text)) => account_outcome(mint_account, Ok(data)) == Err::<
                MetadataView,
                AccountErrorView,
            >(AccountErrorView::Decode(ErrorView::DecodeMetadataFailed(mint_account, text))),
            (Err(error), _) => account_outcome(mint_account, Ok(data)) == Err::<
                MetadataView,
                AccountErrorView,
            >(AccountErrorView::Address(error)),
        },
{
}

} // verus!
