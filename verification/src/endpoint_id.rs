//! The server id that a player types in to join a session: the iroh endpoint
//! id (an ed25519 public key) of the server, written in hex or base32.
use vstd::prelude::*;

verus! {

/// The 32 key bytes that `iroh::PublicKey::from_str` decodes from `s` (64 hex
/// digits, or base32 without padding, in either case), when they are a valid
/// ed25519 public key; `None` when `s` is neither encoding or the bytes are no
/// point of the curve.
pub uninterp spec fn decoded_endpoint_id(s: Seq<char>) -> Option<Seq<u8>>;

/// Why a typed-in server id was refused.
#[derive(Clone, Copy, Debug, PartialEq, Eq, Structural)]
pub enum ServerIdError {
    /// The text is no endpoint id: neither 32 bytes in hex or base32, nor a
    /// valid public key.
    NotAnEndpointId,
}

/// `iroh::PublicKey::from_str` on `s`, giving the key's bytes
/// (`PublicKey::as_bytes`) when it parses. The contract claims that the
/// outcome is `decoded_endpoint_id(s)`: a function of the text alone.
#[verifier::external_body]
fn decode_endpoint_id(s: &str) -> (key: Option<[u8; 32]>)
    ensures
        key is None <==> decoded_endpoint_id(s@) is None,
        key matches Some(b) ==> decoded_endpoint_id(s@) == Some(b@),
{
    s.parse::<iroh::PublicKey>().ok().map(|k| *k.as_bytes())
}

/// The server id a player typed in, as the 32 bytes of the server's public
/// key, or [`ServerIdError::NotAnEndpointId`] when the text is none.
pub fn parse_server_id(server_iroh_string: &str) -> (id: Result<[u8; 32], ServerIdError>)
    ensures
        id is Err <==> decoded_endpoint_id(server_iroh_string@) is None,
        id matches Ok(b) ==> decoded_endpoint_id(server_iroh_string@) == Some(b@),
        id matches Err(e) ==> e == ServerIdError::NotAnEndpointId,
{
    match decode_endpoint_id(server_iroh_string) {
        Some(bytes) => Ok(bytes),
        None => Err(ServerIdError::NotAnEndpointId),
    }
}

} // verus!
