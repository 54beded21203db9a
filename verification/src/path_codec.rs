//! Reversible encoding of an archive's path into a single URL path segment.
//!
//! An archive path may contain `/`, which a router would take for a
//! separator. The token that stands for it in a URL is the unpadded, URL-safe
//! base64 form of the path's UTF-8 bytes.

use base64::Engine;
use vstd::prelude::*;
use vstd::string::StringExecFns;
use vstd::utf8::encode_utf8;

use crate::text::{lemma_lossy_text_of_encoding, lossy_text, utf8_lossy};

verus! {

/// What the URL-safe, unpadded base64 engine makes of a byte string.
pub uninterp spec fn b64url_encoded(bytes: Seq<u8>) -> Seq<char>;

/// The bytes that the URL-safe, unpadded base64 engine reads out of a token,
/// or `None` where it rejects the token.
pub uninterp spec fn b64url_decoded(token: Seq<char>) -> Option<Seq<u8>>;

/// The characters a token is made of: letters, digits, `-` and `_`.
pub open spec fn is_token_char(c: char) -> bool {
    ('A' <= c && c <= 'Z') || ('a' <= c && c <= 'z') || ('0' <= c && c <= '9') || c == '-' || c
        == '_'
}

/// The token that stands for `path`.
pub open spec fn encoded_path(path: Seq<char>) -> Seq<char> {
    b64url_encoded(encode_utf8(path))
}

/// The path that `token` stands for, or `None` where it stands for none.
pub open spec fn decoded_path(token: Seq<char>) -> Option<Seq<char>> {
    match b64url_decoded(token) {
        Some(bytes) => Some(lossy_text(bytes)),
        None => None,
    }
}

/// A token that is not valid encoded input.
pub struct DecodeError {
    /// The token that was rejected.
    pub token: String,
    /// The decoder's own description of what is wrong with it.
    pub cause: String,
}

impl DecodeError {
    /// The diagnostic text sent to the client.
    pub open spec fn spec_message(&self) -> Seq<char> {
        "Invalid file path ["@ + self.token@ + "]: base64 decoding failed: "@ + self.cause@
    }

    /// The diagnostic text sent to the client.
    pub fn message(&self) -> (text: String)
        ensures
            text@ == self.spec_message(),
    {
        let mut text = String::from_str("Invalid file path [");
        text.append(self.token.as_str());
        text.append("]: base64 decoding failed: ");
        text.append(self.cause.as_str());
        text
    }
}

/// `Engine::encode` of `base64::engine::general_purpose::URL_SAFE_NO_PAD`.
/// The result depends on the bytes alone, is drawn from the URL-safe alphabet
/// without padding, and is accepted by the same engine's decoder, which gives
/// the bytes back. The engine computes the output size with checked
/// arithmetic; no slice is long enough to overflow it.
#[verifier::external_body]
fn b64url_encode(bytes: &[u8]) -> (token: String)
    ensures
        token@ == b64url_encoded(bytes@),
        b64url_decoded(token@) == Some(bytes@),
        forall|i: int| 0 <= i < token@.len() ==> is_token_char(#[trigger] token@[i]),
{
    base64::engine::general_purpose::URL_SAFE_NO_PAD.encode(bytes)
}

/// `Engine::decode` of `base64::engine::general_purpose::URL_SAFE_NO_PAD`.
/// Whether the token is accepted, and the bytes it yields, depend on the
/// token alone. Nothing is claimed of the text that describes a rejection.
#[verifier::external_body]
fn b64url_decode(token: &str) -> (out: Result<Vec<u8>, String>)
    ensures
        match b64url_decoded(token@) {
            Some(bytes) => out is Ok && out->Ok_0@ == bytes,
            None => out is Err,
        },
{
    base64::engine::general_purpose::URL_SAFE_NO_PAD.decode(token).map_err(|e| format!("{:?}", e))
}

/// Encodes an archive path as a token that is safe inside one URL path
/// segment. Decoding the token gives the path back.
pub fn encode(path: &str) -> (token: String)
    ensures
        token@ == encoded_path(path@),
        decoded_path(token@) == Some(path@),
        forall|i: int| 0 <= i < token@.len() ==> is_token_char(#[trigger] token@[i]),
        !token@.contains('/'),
        !token@.contains('='),
{
    let token = b64url_encode(path.as_bytes());
    proof {
        lemma_lossy_text_of_encoding(path@);
        assert forall|i: int| 0 <= i < token@.len() implies token@[i] != '/' && token@[i]
            != '=' by {
            assert(is_token_char(token@[i]));
        }
    }
    token
}

/// Decodes a token. Fails exactly on the tokens that the base64 engine
/// rejects; bytes that are not UTF-8 decode lossily.
pub fn decode(token: &str) -> (out: Result<String, DecodeError>)
    ensures
        match decoded_path(token@) {
            Some(path) => out is Ok && out->Ok_0@ == path,
            None => out is Err && out->Err_0.token@ == token@,
        },
{
    match b64url_decode(token) {
        Ok(bytes) => Ok(utf8_lossy(bytes.as_slice())),
        Err(cause) => Err(DecodeError { token: String::from_str(token), cause }),
    }
}

} // verus!
