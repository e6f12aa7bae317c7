//! Binding an attestation challenge to a register: the nonce that goes to
//! the evidence source holds the register's value in front of the caller's
//! nonce, so that the quote covers both.

use vstd::prelude::*;
use vstd::slice::slice_to_vec;
use crate::error::Error;

verus! {

/// The standard base64 text of `bytes`, with padding, as the `base64` crate
/// writes it.
pub uninterp spec fn base64_text(bytes: Seq<u8>) -> Seq<char>;

/// The bytes that `text` stands for in standard base64, as the `base64`
/// crate reads it; nothing where it refuses the text.
pub uninterp spec fn base64_bytes(text: Seq<char>) -> Option<Seq<u8>>;

/// The length of the base64 text of `len` bytes fits the machine.
pub open spec fn encodable(len: nat) -> bool {
    len / 3 * 4 + 4 <= usize::MAX
}

/// Calls `Engine::encode` of the `base64` crate on its standard engine,
/// which yields the base64 text of `bytes`. The crate computes the length
/// of the text beforehand and gives up where that overflows, hence the
/// bound.
#[verifier::external_body]
fn base64_encode(bytes: &[u8]) -> (text: String)
    requires
        encodable(bytes@.len()),
    ensures
        text@ == base64_text(bytes@),
{
    base64::Engine::encode(&base64::engine::general_purpose::STANDARD, bytes)
}

/// Calls `Engine::decode` of the `base64` crate on its standard engine,
/// which yields the bytes that `text` stands for, or refuses the text.
#[verifier::external_body]
fn base64_decode(text: &str) -> (bytes: Option<Vec<u8>>)
    ensures
        bytes matches Some(b) ==> base64_bytes(text@) == Some(b@),
        bytes is None ==> base64_bytes(text@) is None,
{
    base64::Engine::decode(&base64::engine::general_purpose::STANDARD, text).ok()
}

/// The nonce that binds `register` to the caller's `nonce`: the base64 text
/// of the register followed by the bytes of the nonce. A nonce that is not
/// base64 is an `InvalidEncoding`, one too long to encode again an
/// `InvalidRange`.
pub open spec fn bound_nonce(register: Seq<u8>, nonce: Seq<char>) -> Result<Seq<char>, Error> {
    match base64_bytes(nonce) {
        None => Err(Error::InvalidEncoding),
        Some(raw) => if encodable((register + raw).len()) {
            Ok(base64_text(register + raw))
        } else {
            Err(Error::InvalidRange)
        },
    }
}

/// Whether `len` bytes can be written as base64 on this machine.
pub fn is_encodable(len: usize) -> (fits: bool)
    ensures
        fits == encodable(len as nat),
{
    len / 3 <= (usize::MAX - 4) / 4
}

/// The base64 text of `bytes`, if its length fits the machine.
pub fn encode(bytes: &[u8]) -> (text: Option<String>)
    ensures
        text is Some <==> encodable(bytes@.len()),
        text matches Some(t) ==> t@ == base64_text(bytes@),
{
    if is_encodable(bytes.len()) {
        Some(base64_encode(bytes))
    } else {
        None
    }
}

/// The bytes that `text` stands for in base64, if it stands for any.
pub fn decode(text: &str) -> (bytes: Option<Vec<u8>>)
    ensures
        bytes matches Some(b) ==> base64_bytes(text@) == Some(b@),
        bytes is None ==> base64_bytes(text@) is None,
{
    base64_decode(text)
}

/// The nonce that binds `register` to the caller's `nonce`.
pub fn bind_nonce(register: &[u8], nonce: &str) -> (bound: Result<String, Error>)
    ensures
        bound matches Ok(text) ==> bound_nonce(register@, nonce@) == Ok::<Seq<char>, Error>(text@),
        bound matches Err(e) ==> bound_nonce(register@, nonce@) == Err::<Seq<char>, Error>(e),
{
    let raw = match decode(nonce) {
        Some(raw) => raw,
        None => { return Err(Error::InvalidEncoding); },
    };
    let mut joined = slice_to_vec(register);
    let mut i: usize = 0;
    while i < raw.len()
        invariant
            i <= raw@.len(),
            joined@ == register@ + raw@.subrange(0, i as int),
        decreases raw@.len() - i,
    {
        joined.push(raw[i]);
        i = i + 1;
    }
    assert(raw@.subrange(0, i as int) =~= raw@);
    match encode(joined.as_slice()) {
        Some(text) => Ok(text),
        None => Err(Error::InvalidRange),
    }
}

} // verus!
