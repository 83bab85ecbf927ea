//! What can go wrong when the metadata of a mint account is decoded.

use vstd::prelude::*;

verus! {

/// Why a decode failed. The first field is the account that the decode was asked for, the second
/// one the text of the cause.
#[derive(Debug, PartialEq, Eq)]
pub enum DecodeError {
    MissingAccount(String),
    ClientError(String, String),
    NetworkError(String, String),
    PubkeyParseFailed(String),
    DecodeMetadataFailed(String, String),
}

/// The mathematical value of a [`DecodeError`].
pub enum ErrorView {
    MissingAccount(Seq<char>),
    ClientError(Seq<char>, Seq<char>),
    NetworkError(Seq<char>, Seq<char>),
    PubkeyParseFailed(Seq<char>),
    DecodeMetadataFailed(Seq<char>, Seq<char>),
}

impl View for DecodeError {
    type V = ErrorView;

    open spec fn view(&self) -> ErrorView {
        match self {
            DecodeError::MissingAccount(account) => ErrorView::MissingAccount(account@),
            DecodeError::ClientError(account, cause) => ErrorView::ClientError(account@, cause@),
            DecodeError::NetworkError(account, cause) => ErrorView::NetworkError(account@, cause@),
            DecodeError::PubkeyParseFailed(account) => ErrorView::PubkeyParseFailed(account@),
            DecodeError::DecodeMetadataFailed(account, cause) => ErrorView::DecodeMetadataFailed(
                account@,
                cause@,
            ),
        }
    }
}

impl ErrorView {
    /// The account that the decode was asked for.
    pub open spec fn account(self) -> Seq<char> {
        match self {
            ErrorView::MissingAccount(account) => account,
            ErrorView::ClientError(account, _) => account,
            ErrorView::NetworkError(account, _) => account,
            ErrorView::PubkeyParseFailed(account) => account,
            ErrorView::DecodeMetadataFailed(account, _) => account,
        }
    }

    /// The text under which the error is reported.
    pub open spec fn message(self) -> Seq<char> {
        match self {
            ErrorView::MissingAccount(_) => "no account data found"@,
            ErrorView::ClientError(_, cause) => "failed to get account data: "@ + cause,
            ErrorView::NetworkError(_, cause) => "network request failed: "@ + cause,
            ErrorView::PubkeyParseFailed(_) => "failed to parse string into Pubkey"@,
            ErrorView::DecodeMetadataFailed(_, cause) => "failed to decode metadata: "@ + cause,
        }
    }
}

fn with_cause(what: &str, cause: &String) -> (text: String)
    ensures
        text@ == what@ + cause@,
{
    let mut text = what.to_owned();
    text.append(cause.as_str());
    text
}

impl DecodeError {
    /// The account that the decode was asked for.
    pub fn account(&self) -> (account: &String)
        ensures
            account@ == self@.account(),
            match self {
                DecodeError::MissingAccount(asked) => account@ == asked@,
                DecodeError::ClientError(asked, _) => account@ == asked@,
                DecodeError::NetworkError(asked, _) => account@ == asked@,
                DecodeError::PubkeyParseFailed(asked) => account@ == asked@,
                DecodeError::DecodeMetadataFailed(asked, _) => account@ == asked@,
            },
    {
        match self {
            DecodeError::MissingAccount(account) => account,
            DecodeError::ClientError(account, _) => account,
            DecodeError::NetworkError(account, _) => account,
            DecodeError::PubkeyParseFailed(account) => account,
            DecodeError::DecodeMetadataFailed(account, _) => account,
        }
    }

    /// The text under which the error is reported.
    pub fn message(&self) -> (text: String)
        ensures
            text@ == self@.message(),
            match self {
                DecodeError::MissingAccount(_) => text@ == "no account data found"@,
                DecodeError::ClientError(_, cause) => text@ == "failed to get account data: "@
                    + cause@,
                DecodeError::NetworkError(_, cause) => text@ == "network request failed: "@ + cause@,
                DecodeError::PubkeyParseFailed(_) => text@ == "failed to parse string into Pubkey"@,
                DecodeError::DecodeMetadataFailed(_, cause) => text@
                    == "failed to decode metadata: "@ + cause@,
            },
    {
        match self {
            DecodeError::MissingAccount(_) => "no account data found".to_owned(),
            DecodeError::ClientError(_, cause) => with_cause("failed to get account data: ", cause),
            DecodeError::NetworkError(_, cause) => with_cause("network request failed: ", cause),
            DecodeError::PubkeyParseFailed(_) => "failed to parse string into Pubkey".to_owned(),
            DecodeError::DecodeMetadataFailed(_, cause) => with_cause(
                "failed to decode metadata: ",
                cause,
            ),
        }
    }
}

/// The value of an error is of its kind, with the account that the decode was asked for and the
/// whole text of the cause.
pub proof fn lemma_error_values(error: DecodeError)
    ensures
        match error {
            DecodeError::MissingAccount(account) => error@ == ErrorView::MissingAccount(account@),
            DecodeError::ClientError(account, cause) => error@ == ErrorView::ClientError(
                account@,
                cause@,
            ),
            DecodeError::NetworkError(account, cause) => error@ == ErrorView::NetworkError(
                account@,
                cause@,
            ),
            DecodeError::PubkeyParseFailed(account) => error@ == ErrorView::PubkeyParseFailed(
                account@,
            ),
            DecodeError::DecodeMetadataFailed(account, cause) => error@
                == ErrorView::DecodeMetadataFailed(account@, cause@),
        },
{
}

/// An error is reported under what went wrong, followed by the whole text of the cause where there
/// is one, and whatever went wrong it names the account that the decode was asked for.
pub proof fn lemma_reported_errors(account: Seq<char>, cause: Seq<char>)
    ensures
        ErrorView::MissingAccount(account).account() == account,
        ErrorView::ClientError(account, cause).account() == account,
        ErrorView::NetworkError(account, cause).account() == account,
        ErrorView::PubkeyParseFailed(account).account() == account,
        ErrorView::DecodeMetadataFailed(account, cause).account() == account,
        ErrorView::MissingAccount(account).message() == "no account data found"@,
        ErrorView::ClientError(account, cause).message() == "failed to get account data: "@ + cause,
        ErrorView::NetworkError(account, cause).message() == "network request failed: "@ + cause,
        ErrorView::PubkeyParseFailed(account).message() == "failed to parse string into Pubkey"@,
        ErrorView::DecodeMetadataFailed(account, cause).message() == "failed to decode metadata: "@
            + cause,
{
}

} // verus!
