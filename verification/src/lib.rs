//! Decoding of on-chain token metadata: addresses, metadata records, their JSON form and the
//! bookkeeping of a batch of decodes.

pub mod address;
pub mod batch;
pub mod cache;
pub mod decode;
pub mod error;
pub mod json;
pub mod metadata;
pub mod nft;
pub mod run;
pub mod stored;
pub mod text;
