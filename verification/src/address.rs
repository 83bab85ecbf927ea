//! Account addresses: their base58 text and the derived address of a mint's metadata account.

use solana_program::pubkey::{ParsePubkeyError, Pubkey};
use std::str::FromStr;
use vstd::array::array_as_slice;
use vstd::prelude::*;
use vstd::string::StringSliceAdditionalSpecFns;

verus! {

/// The bytes of an account address.
pub type Address = [u8; 32];

/// Why a text is no address.
#[derive(Debug, Clone, Copy, PartialEq, Eq, Structural)]
pub enum AddressError {
    /// The text, or what it stands for, has the wrong length.
    WrongSize,
    /// The text is not base58.
    Invalid,
}

/// What `Pubkey::from_str` makes of a text: the bytes of the address, or the error.
pub uninterp spec fn parsed_address(text: Seq<char>) -> Result<Seq<u8>, AddressError>;

/// Whether `text` is read as the address with these bytes.
pub open spec fn reads_as(text: Seq<char>, bytes: Seq<u8>) -> bool {
    parsed_address(text) == Ok::<Seq<u8>, AddressError>(bytes)
}

/// The base58 text that `Pubkey`'s `Display` gives the address with these bytes.
pub uninterp spec fn address_text(bytes: Seq<u8>) -> Seq<char>;

/// The first address that `Pubkey::try_find_program_address` finds for these seeds under a
/// program, `None` where no bump seed gives one.
pub uninterp spec fn program_address(seeds: Seq<Seq<u8>>, program: Seq<u8>) -> Option<Seq<u8>>;

/// `Pubkey::from_str`: the address that `text` spells in base58, and each of its two errors under
/// its own name. The text of an address is the only one that is read as that address.
#[verifier::external_body]
pub(crate) fn parse_address(text: &str) -> (address: Result<Address, AddressError>)
    ensures
        match address {
            Ok(bytes) => reads_as(text@, bytes@) && address_text(bytes@) == text@,
            Err(error) => parsed_address(text@) == Err::<Seq<u8>, AddressError>(error),
        },
{
    match Pubkey::from_str(text) {
        Ok(key) => Ok(key.to_bytes()),
        Err(ParsePubkeyError::WrongSize) => Err(AddressError::WrongSize),
        Err(ParsePubkeyError::Invalid) => Err(AddressError::Invalid),
    }
}

/// `Pubkey`'s `Display`: the base58 text of an address, which is read back as that address.
#[verifier::external_body]
pub(crate) fn address_to_string(address: &Address) -> (text: String)
    ensures
        text@ == address_text(address@),
        reads_as(text@, address@),
{
    Pubkey::from(*address).to_string()
}

/// The bytes of each seed.
pub open spec fn seed_bytes(seeds: Seq<&[u8]>) -> Seq<Seq<u8>> {
    seeds.map_values(|seed: &[u8]| seed@)
}

/// `Pubkey::try_find_program_address`, without the bump seed that it returns beside the address.
/// `Pubkey::find_program_address` is the same search, with a panic in place of `None`.
#[verifier::external_body]
pub(crate) fn find_program_address(seeds: &[&[u8]], program: &Address) -> (address: Option<
    Address,
>)
    ensures
        match address {
            Some(bytes) => program_address(seed_bytes(seeds@), program@) == Some(bytes@),
            None => program_address(seed_bytes(seeds@), program@) is None,
        },
{
    let found = Pubkey::try_find_program_address(seeds, &Pubkey::from(*program));
    found.map(|pair| pair.0.to_bytes())
}

/// The address of the token metadata program.
pub const METAPLEX_PROGRAM_ID: &'static str = "metaqbxxUerdq28cj1RbAWkYQm3ybzjb6a8bt518x1s";

/// The seeds from which the address of a mint's metadata account is derived.
pub open spec fn metadata_seeds(program: Seq<u8>, mint: Seq<u8>) -> Seq<Seq<u8>> {
    seq!["metadata".spec_bytes(), program, mint]
}

/// The address of the metadata account of `mint`; `None` where the program's own address does
/// not parse or no bump seed gives an address.
pub open spec fn metadata_pda(mint: Seq<u8>) -> Option<Seq<u8>> {
    match parsed_address(METAPLEX_PROGRAM_ID@) {
        Ok(program) => program_address(metadata_seeds(program, mint), program),
        Err(_) => None,
    }
}

/// The bytes of an optional address.
pub open spec fn address_option(address: Option<Address>) -> Option<Seq<u8>> {
    match address {
        Some(bytes) => Some(bytes@),
        None => None,
    }
}

fn search_metadata_pda(mint: Address) -> (pda: Option<Address>)
    ensures
        address_option(pda) == metadata_pda(mint@),
{
    match parse_address(METAPLEX_PROGRAM_ID) {
        Ok(program) => {
            let mut seeds: Vec<&[u8]> = Vec::new();
            seeds.push("metadata".as_bytes());
            seeds.push(array_as_slice(&program));
            seeds.push(array_as_slice(&mint));
            assert(seed_bytes(seeds@) =~= metadata_seeds(program@, mint@));
            find_program_address(seeds.as_slice(), &program)
        },
        Err(_) => None,
    }
}

/// The address of the metadata account of `mint`: the one that the program derives from the text
/// `metadata`, its own address and the mint.
pub fn get_metadata_pda(mint: Address) -> (pda: Address)
    requires
        metadata_pda(mint@) is Some,
    ensures
        metadata_pda(mint@) == Some(pda@),
        parsed_address(METAPLEX_PROGRAM_ID@) matches Ok(program) && program_address(
            seq!["metadata".spec_bytes(), program, mint@],
            program,
        ) == Some(pda@),
{
    search_metadata_pda(mint).unwrap()
}

/// The address of the metadata account of `mint`, where there is one.
pub fn try_get_metadata_pda(mint: Address) -> (pda: Option<Address>)
    ensures
        address_option(pda) == metadata_pda(mint@),
        match (parsed_address(METAPLEX_PROGRAM_ID@), pda) {
            (Ok(program), Some(bytes)) => program_address(
                seq!["metadata".spec_bytes(), program, mint@],
                program,
            ) == Some(bytes@),
            (Ok(program), None) => program_address(
                seq!["metadata".spec_bytes(), program, mint@],
                program,
            ) is None,
            (Err(_), _) => pda is None,
        },
{
    if search_metadata_pda(mint).is_some() {
        Some(get_metadata_pda(mint))
    } else {
        None
    }
}

/// The metadata account of a mint is the address that the program derives from three seeds: the
/// text `metadata`, the program's own address and the mint, byte by byte. Without the program's
/// address there is none.
pub proof fn lemma_metadata_account_of_a_mint(
    program: Seq<u8>,
    mint: Seq<u8>,
    seeds: Seq<Seq<u8>>,
)
    ensures
        ({
            &&& parsed_address(METAPLEX_PROGRAM_ID@) == Ok::<Seq<u8>, AddressError>(program)
            &&& seeds.len() == 3
            &&& seeds[0] == "metadata".spec_bytes()
            &&& seeds[1] == program
            &&& seeds[2].len() == mint.len()
            &&& forall|i: int| 0 <= i < mint.len() ==> #[trigger] seeds[2][i] == mint[i]
        }) ==> metadata_pda(mint) == program_address(seeds, program),
        parsed_address(METAPLEX_PROGRAM_ID@) is Err ==> metadata_pda(mint) is None,
{
    if seeds.len() == 3 && seeds[2].len() == mint.len() && (forall|i: int|
        0 <= i < mint.len() ==> #[trigger] seeds[2][i] == mint[i]) {
        assert(seeds[2] =~= mint);
        assert(seeds =~= seq![seeds[0], seeds[1], mint]);
    }
}

} // verus!
