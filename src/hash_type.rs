use vstd::prelude::*;

verus! {

/// The error returned when a hash algorithm name is not recognised.
#[derive(Debug)]
pub struct InvalidHashTypeError {
    _priv: (),
}

impl InvalidHashTypeError {
    pub fn new() -> (r: Self) {
        InvalidHashTypeError { _priv: () }
    }

    /// The text that describes this error.
    pub fn message(&self) -> (r: String)
        ensures
            r@ == "invalid hash type"@,
    {
        proof {
            reveal_strlit("invalid hash type");
        }
        "invalid hash type".to_owned()
    }
}

/// The hash algorithms a search can run on.
#[derive(Debug, Clone, Copy, PartialEq, Eq, Structural)]
pub enum HashType {
    Md5,
    Sha1,
    Sha224,
    Sha256,
    Sha384,
    Sha512,
}

/// What the UTF-8 bytes of an already lower-cased algorithm name select.
pub open spec fn hash_type_of_lowered(name: Seq<u8>) -> Option<HashType> {
    if name == seq![109u8, 100u8, 53u8] {
        Some(HashType::Md5)
    } else if name == seq![115u8, 104u8, 97u8, 49u8] {
        Some(HashType::Sha1)
    } else if name == seq![115u8, 104u8, 97u8, 50u8, 50u8, 52u8] {
        Some(HashType::Sha224)
    } else if name == seq![115u8, 104u8, 97u8, 50u8, 53u8, 54u8] {
        Some(HashType::Sha256)
    } else if name == seq![115u8, 104u8, 97u8, 51u8, 56u8, 52u8] {
        Some(HashType::Sha384)
    } else if name == seq![115u8, 104u8, 97u8, 53u8, 49u8, 50u8] {
        Some(HashType::Sha512)
    } else {
        None
    }
}

/// The UTF-8 bytes of the lower-case form of `s`, as `str::to_lowercase` gives it.
pub uninterp spec fn lowercase_utf8(s: Seq<char>) -> Seq<u8>;

/// Relies on `str::to_lowercase`: the lower-case form depends on the text alone.
#[verifier::external_body]
fn lowercase_bytes(s: &str) -> (r: Vec<u8>)
    ensures
        r@ == lowercase_utf8(s@),
{
    s.to_lowercase().into_bytes()
}

fn bytes_eq(a: &[u8], b: &[u8]) -> (r: bool)
    ensures
        r == (a@ == b@),
{
    if a.len() != b.len() {
        return false;
    }
    let mut i: usize = 0;
    while i < a.len()
        invariant
            a@.len() == b@.len(),
            0 <= i <= a@.len(),
            forall|k: int| 0 <= k < i ==> a@[k] == b@[k],
        decreases a@.len() - i,
    {
        if a[i] != b[i] {
            return false;
        }
        i = i + 1;
    }
    assert(a@ =~= b@);
    true
}

impl HashType {
    /// Selects the algorithm named by `name`, which must already be in lower case.
    pub fn from_lowered(name: &[u8]) -> (r: Result<HashType, InvalidHashTypeError>)
        ensures
            match hash_type_of_lowered(name@) {
                Some(t) => r == Ok::<HashType, InvalidHashTypeError>(t),
                None => r is Err,
            },
    {
        let md5: [u8; 3] = [109u8, 100u8, 53u8];
        let sha1: [u8; 4] = [115u8, 104u8, 97u8, 49u8];
        let sha224: [u8; 6] = [115u8, 104u8, 97u8, 50u8, 50u8, 52u8];
        let sha256: [u8; 6] = [115u8, 104u8, 97u8, 50u8, 53u8, 54u8];
        let sha384: [u8; 6] = [115u8, 104u8, 97u8, 51u8, 56u8, 52u8];
        let sha512: [u8; 6] = [115u8, 104u8, 97u8, 53u8, 49u8, 50u8];
        assert(md5@ =~= seq![109u8, 100u8, 53u8]);
        assert(sha1@ =~= seq![115u8, 104u8, 97u8, 49u8]);
        assert(sha224@ =~= seq![115u8, 104u8, 97u8, 50u8, 50u8, 52u8]);
        assert(sha256@ =~= seq![115u8, 104u8, 97u8, 50u8, 53u8, 54u8]);
        assert(sha384@ =~= seq![115u8, 104u8, 97u8, 51u8, 56u8, 52u8]);
        assert(sha512@ =~= seq![115u8, 104u8, 97u8, 53u8, 49u8, 50u8]);
        if bytes_eq(name, md5.as_slice()) {
            Ok(HashType::Md5)
        } else if bytes_eq(name, sha1.as_slice()) {
            Ok(HashType::Sha1)
        } else if bytes_eq(name, sha224.as_slice()) {
            Ok(HashType::Sha224)
        } else if bytes_eq(name, sha256.as_slice()) {
            Ok(HashType::Sha256)
        } else if bytes_eq(name, sha384.as_slice()) {
            Ok(HashType::Sha384)
        } else if bytes_eq(name, sha512.as_slice()) {
            Ok(HashType::Sha512)
        } else {
            Err(InvalidHashTypeError::new())
        }
    }

    /// Selects the algorithm named by `s`, ignoring case.
    pub fn from_name(s: &str) -> (r: Result<HashType, InvalidHashTypeError>)
        ensures
            match hash_type_of_lowered(lowercase_utf8(s@)) {
                Some(t) => r == Ok::<HashType, InvalidHashTypeError>(t),
                None => r is Err,
            },
    {
        let lowered = lowercase_bytes(s);
        HashType::from_lowered(lowered.as_slice())
    }
}

impl std::str::FromStr for HashType {
    type Err = InvalidHashTypeError;

    fn from_str(s: &str) -> Result<HashType, InvalidHashTypeError> {
        HashType::from_name(s)
    }
}

} // verus!
