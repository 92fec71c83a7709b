//! Masked proof-of-work search: find a plaintext, drawn position by position
//! from given byte alphabets, whose digest agrees with a target on every bit
//! selected by a mask.

pub mod digest;
mod channel;
mod hash_type;
mod matcher;
mod search;

pub use digest::{Md5, Sha1, Sha224, Sha256, Sha384, Sha512, PARALLEL_BLOCK_SIZE};
pub use hash_type::{HashType, InvalidHashTypeError};
pub use matcher::{get_message_count, PowSearchParameters};
pub use search::{
    finish, on_offer, search, search_by_hash_type, settle, SearchResult, ThreadConfig, Walk,
    DEFAULT_THREAD_COUNT,
};
pub use channel::Offer;
