//! Bytes carried as base64 text on the wire.
use vstd::prelude::*;
use crate::model::RepoError;

verus! {

/// The standard, padded base64 text of `b`.
pub uninterp spec fn base64_of(b: Seq<u8>) -> Seq<char>;

/// What decoding the standard, padded base64 text `s` gives, if it is well formed.
pub uninterp spec fn base64_decoded(s: Seq<char>) -> Option<Seq<u8>>;

/// Relies on `base64::encode` (standard alphabet, padded).
#[verifier::external_body]
fn encode_base64(b: &[u8]) -> (r: String)
    ensures
        r@ == base64_of(b@),
{
    base64::encode(b)
}

/// Relies on `base64::decode` (standard alphabet, padded), which inverts
/// `base64::encode`: the text of some bytes decodes to those bytes.
#[verifier::external_body]
fn decode_base64(s: &str) -> (r: Option<Vec<u8>>)
    ensures
        match base64_decoded(s@) {
            Some(b) => (r matches Some(v) && v@ == b),
            None => r is None,
        },
        r is Some ==> forall|b: Seq<u8>| #[trigger] base64_of(b) == s@ ==> r->0@ == b,
        r is None ==> forall|b: Seq<u8>| #[trigger] base64_of(b) != s@,
{
    base64::decode(s).ok()
}

/// A byte string that travels as base64 text.
#[derive(Debug, Clone)]
pub struct Base64Byte(pub Vec<u8>);

impl Base64Byte {
    pub fn new(data: Vec<u8>) -> (r: Base64Byte)
        ensures
            r.0@ == data@,
    {
        Base64Byte(data)
    }

    /// The base64 text of the bytes.
    pub fn to_base64(&self) -> (r: String)
        ensures
            r@ == base64_of(self.0@),
    {
        encode_base64(self.0.as_slice())
    }

    /// The bytes that base64 text `s` stands for. Fails with `InvalidParams`
    /// on malformed text; the text of some bytes gives those bytes back.
    pub fn from_base64(s: &str) -> (r: Result<Base64Byte, RepoError>)
        ensures
            match base64_decoded(s@) {
                Some(b) => (r matches Ok(v) && v.0@ == b),
                None => (r matches Err(e) && e is InvalidParams),
            },
            forall|b: Seq<u8>| #[trigger] base64_of(b) == s@ ==> (r matches Ok(v) && v.0@ == b),
    {
        match decode_base64(s) {
            Some(v) => Ok(Base64Byte(v)),
            None => Err(RepoError::InvalidParams(String::from_str(s))),
        }
    }
}

impl From<Base64Byte> for Vec<u8> {
    fn from(v: Base64Byte) -> (r: Vec<u8>) {
        v.0
    }
}

impl vstd::std_specs::convert::FromSpecImpl<Base64Byte> for Vec<u8> {
    open spec fn obeys_from_spec() -> bool {
        true
    }

    open spec fn from_spec(v: Base64Byte) -> Vec<u8> {
        v.0
    }
}

} // verus!
