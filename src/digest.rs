use vstd::prelude::*;

use crate::hash_type::HashType;

verus! {

/// The MD5 digest of a byte string, as the `md-5` crate computes it.
pub uninterp spec fn md5_of(bytes: Seq<u8>) -> Seq<u8>;

/// The SHA-1 digest of a byte string, as the `sha1` crate computes it.
pub uninterp spec fn sha1_of(bytes: Seq<u8>) -> Seq<u8>;

/// The SHA-224 digest of a byte string, as the `sha2` crate computes it.
pub uninterp spec fn sha224_of(bytes: Seq<u8>) -> Seq<u8>;

/// The SHA-256 digest of a byte string, as the `sha2` crate computes it.
pub uninterp spec fn sha256_of(bytes: Seq<u8>) -> Seq<u8>;

/// The SHA-384 digest of a byte string, as the `sha2` crate computes it.
pub uninterp spec fn sha384_of(bytes: Seq<u8>) -> Seq<u8>;

/// The SHA-512 digest of a byte string, as the `sha2` crate computes it.
pub uninterp spec fn sha512_of(bytes: Seq<u8>) -> Seq<u8>;

/// Relies on `md5::Md5::digest` (md-5): a 16-byte digest that depends on the input alone.
#[verifier::external_body]
fn md5_digest(bytes: &[u8]) -> (r: Vec<u8>)
    ensures
        r@ == md5_of(bytes@),
        r@.len() == 16,
{
    <md5::Md5 as md5::Digest>::digest(bytes).to_vec()
}

/// Relies on `sha1::Sha1::digest`: a 20-byte digest that depends on the input alone.
#[verifier::external_body]
fn sha1_digest(bytes: &[u8]) -> (r: Vec<u8>)
    ensures
        r@ == sha1_of(bytes@),
        r@.len() == 20,
{
    <sha1::Sha1 as sha1::Digest>::digest(bytes).to_vec()
}

/// Relies on `sha2::Sha224::digest`: a 28-byte digest that depends on the input alone.
#[verifier::external_body]
fn sha224_digest(bytes: &[u8]) -> (r: Vec<u8>)
    ensures
        r@ == sha224_of(bytes@),
        r@.len() == 28,
{
    <sha2::Sha224 as sha2::Digest>::digest(bytes).to_vec()
}

/// Relies on `sha2::Sha256::digest`: a 32-byte digest that depends on the input alone.
#[verifier::external_body]
fn sha256_digest(bytes: &[u8]) -> (r: Vec<u8>)
    ensures
        r@ == sha256_of(bytes@),
        r@.len() == 32,
{
    <sha2::Sha256 as sha2::Digest>::digest(bytes).to_vec()
}

/// Relies on `sha2::Sha384::digest`: a 48-byte digest that depends on the input alone.
#[verifier::external_body]
fn sha384_digest(bytes: &[u8]) -> (r: Vec<u8>)
    ensures
        r@ == sha384_of(bytes@),
        r@.len() == 48,
{
    <sha2::Sha384 as sha2::Digest>::digest(bytes).to_vec()
}

/// Relies on `sha2::Sha512::digest`: a 64-byte digest that depends on the input alone.
#[verifier::external_body]
fn sha512_digest(bytes: &[u8]) -> (r: Vec<u8>)
    ensures
        r@ == sha512_of(bytes@),
        r@.len() == 64,
{
    <sha2::Sha512 as sha2::Digest>::digest(bytes).to_vec()
}

/// How many leaf evaluations one dispatched unit of work should roughly
/// hold; every algorithm here uses this value.
pub const PARALLEL_BLOCK_SIZE: usize = 4096;

/// A fixed-width digest function, with its dispatch granularity.
pub trait Hash {
    /// The digest of `bytes`.
    spec fn spec_hash(bytes: Seq<u8>) -> Seq<u8>;

    /// The width of every digest, in bytes.
    spec fn spec_hash_bytes() -> nat;

    fn hash_bytes() -> (r: usize)
        ensures
            r == Self::spec_hash_bytes(),
    ;

    /// When searching in parallel, the largest subtree, in leaves, handed to one worker.
    spec fn spec_parallel_block_size() -> nat;

    fn parallel_block_size() -> (r: usize)
        ensures
            r == Self::spec_parallel_block_size(),
    ;

    fn hash(bytes: &[u8]) -> (r: Vec<u8>)
        ensures
            r@ == Self::spec_hash(bytes@),
            r@.len() == Self::spec_hash_bytes(),
    ;
}

pub struct Md5 {}

pub struct Sha1 {}

pub struct Sha224 {}

pub struct Sha256 {}

pub struct Sha384 {}

pub struct Sha512 {}

impl Hash for Md5 {
    open spec fn spec_hash(bytes: Seq<u8>) -> Seq<u8> {
        md5_of(bytes)
    }

    open spec fn spec_hash_bytes() -> nat {
        16
    }

    fn hash_bytes() -> (r: usize) {
        16
    }

    open spec fn spec_parallel_block_size() -> nat {
        PARALLEL_BLOCK_SIZE as nat
    }

    fn parallel_block_size() -> (r: usize) {
        PARALLEL_BLOCK_SIZE
    }

    fn hash(bytes: &[u8]) -> (r: Vec<u8>) {
        md5_digest(bytes)
    }
}

impl Hash for Sha1 {
    open spec fn spec_hash(bytes: Seq<u8>) -> Seq<u8> {
        sha1_of(bytes)
    }

    open spec fn spec_hash_bytes() -> nat {
        20
    }

    fn hash_bytes() -> (r: usize) {
        20
    }

    open spec fn spec_parallel_block_size() -> nat {
        PARALLEL_BLOCK_SIZE as nat
    }

    fn parallel_block_size() -> (r: usize) {
        PARALLEL_BLOCK_SIZE
    }

    fn hash(bytes: &[u8]) -> (r: Vec<u8>) {
        sha1_digest(bytes)
    }
}

impl Hash for Sha224 {
    open spec fn spec_hash(bytes: Seq<u8>) -> Seq<u8> {
        sha224_of(bytes)
    }

    open spec fn spec_hash_bytes() -> nat {
        28
    }

    fn hash_bytes() -> (r: usize) {
        28
    }

    open spec fn spec_parallel_block_size() -> nat {
        PARALLEL_BLOCK_SIZE as nat
    }

    fn parallel_block_size() -> (r: usize) {
        PARALLEL_BLOCK_SIZE
    }

    fn hash(bytes: &[u8]) -> (r: Vec<u8>) {
        sha224_digest(bytes)
    }
}

impl Hash for Sha256 {
    open spec fn spec_hash(bytes: Seq<u8>) -> Seq<u8> {
        sha256_of(bytes)
    }

    open spec fn spec_hash_bytes() -> nat {
        32
    }

    fn hash_bytes() -> (r: usize) {
        32
    }

    open spec fn spec_parallel_block_size() -> nat {
        PARALLEL_BLOCK_SIZE as nat
    }

    fn parallel_block_size() -> (r: usize) {
        PARALLEL_BLOCK_SIZE
    }

    fn hash(bytes: &[u8]) -> (r: Vec<u8>) {
        sha256_digest(bytes)
    }
}

impl Hash for Sha384 {
    open spec fn spec_hash(bytes: Seq<u8>) -> Seq<u8> {
        sha384_of(bytes)
    }

    open spec fn spec_hash_bytes() -> nat {
        48
    }

    fn hash_bytes() -> (r: usize) {
        48
    }

    open spec fn spec_parallel_block_size() -> nat {
        PARALLEL_BLOCK_SIZE as nat
    }

    fn parallel_block_size() -> (r: usize) {
        PARALLEL_BLOCK_SIZE
    }

    fn hash(bytes: &[u8]) -> (r: Vec<u8>) {
        sha384_digest(bytes)
    }
}

impl Hash for Sha512 {
    open spec fn spec_hash(bytes: Seq<u8>) -> Seq<u8> {
        sha512_of(bytes)
    }

    open spec fn spec_hash_bytes() -> nat {
        64
    }

    fn hash_bytes() -> (r: usize) {
        64
    }

    open spec fn spec_parallel_block_size() -> nat {
        PARALLEL_BLOCK_SIZE as nat
    }

    fn parallel_block_size() -> (r: usize) {
        PARALLEL_BLOCK_SIZE
    }

    fn hash(bytes: &[u8]) -> (r: Vec<u8>) {
        sha512_digest(bytes)
    }
}

/// The digest of `bytes` under algorithm `t`.
pub open spec fn digest_of(t: HashType, bytes: Seq<u8>) -> Seq<u8> {
    match t {
        HashType::Md5 => Md5::spec_hash(bytes),
        HashType::Sha1 => Sha1::spec_hash(bytes),
        HashType::Sha224 => Sha224::spec_hash(bytes),
        HashType::Sha256 => Sha256::spec_hash(bytes),
        HashType::Sha384 => Sha384::spec_hash(bytes),
        HashType::Sha512 => Sha512::spec_hash(bytes),
    }
}

/// The dispatch block size of algorithm `t`.
pub open spec fn block_size_of(t: HashType) -> nat {
    match t {
        HashType::Md5 => Md5::spec_parallel_block_size(),
        HashType::Sha1 => Sha1::spec_parallel_block_size(),
        HashType::Sha224 => Sha224::spec_parallel_block_size(),
        HashType::Sha256 => Sha256::spec_parallel_block_size(),
        HashType::Sha384 => Sha384::spec_parallel_block_size(),
        HashType::Sha512 => Sha512::spec_parallel_block_size(),
    }
}

/// The width in bytes of every digest of algorithm `t`.
pub open spec fn digest_width(t: HashType) -> nat {
    match t {
        HashType::Md5 => 16,
        HashType::Sha1 => 20,
        HashType::Sha224 => 28,
        HashType::Sha256 => 32,
        HashType::Sha384 => 48,
        HashType::Sha512 => 64,
    }
}

impl HashType {
    /// The width in bytes of this algorithm's digests.
    pub fn hash_bytes(&self) -> (r: usize)
        ensures
            r == digest_width(*self),
    {
        match self {
            HashType::Md5 => Md5::hash_bytes(),
            HashType::Sha1 => Sha1::hash_bytes(),
            HashType::Sha224 => Sha224::hash_bytes(),
            HashType::Sha256 => Sha256::hash_bytes(),
            HashType::Sha384 => Sha384::hash_bytes(),
            HashType::Sha512 => Sha512::hash_bytes(),
        }
    }

    /// The largest subtree, counted in leaves, that is handed to one worker.
    pub fn parallel_block_size(&self) -> (r: usize)
        ensures
            r == block_size_of(*self),
    {
        match self {
            HashType::Md5 => Md5::parallel_block_size(),
            HashType::Sha1 => Sha1::parallel_block_size(),
            HashType::Sha224 => Sha224::parallel_block_size(),
            HashType::Sha256 => Sha256::parallel_block_size(),
            HashType::Sha384 => Sha384::parallel_block_size(),
            HashType::Sha512 => Sha512::parallel_block_size(),
        }
    }

    /// The digest of `bytes` under this algorithm.
    pub fn hash(&self, bytes: &[u8]) -> (r: Vec<u8>)
        ensures
            r@ == digest_of(*self, bytes@),
            r@.len() == digest_width(*self),
    {
        match self {
            HashType::Md5 => Md5::hash(bytes),
            HashType::Sha1 => Sha1::hash(bytes),
            HashType::Sha224 => Sha224::hash(bytes),
            HashType::Sha256 => Sha256::hash(bytes),
            HashType::Sha384 => Sha384::hash(bytes),
            HashType::Sha512 => Sha512::hash(bytes),
        }
    }
}

} // verus!
