use vectorwar_core::endpoint_id::{parse_server_id, ServerIdError};

// The public key of the first test vector of RFC 8032 (Ed25519).
const KEY_HEX: &str = "d75a980182b10ab7d54bfed3c964073a0ee172f3daa62325af021a68f707511a";

fn key_bytes() -> [u8; 32] {
    let mut out = [0u8; 32];
    for (i, byte) in out.iter_mut().enumerate() {
        *byte = u8::from_str_radix(&KEY_HEX[2 * i..2 * i + 2], 16).unwrap();
    }
    out
}

fn base32_lower(bytes: &[u8]) -> String {
    let alphabet = b"abcdefghijklmnopqrstuvwxyz234567";
    let mut out = String::new();
    let mut buffer: u32 = 0;
    let mut bits: u32 = 0;
    for &b in bytes {
        buffer = (buffer << 8) | b as u32;
        bits += 8;
        while bits >= 5 {
            bits -= 5;
            out.push(alphabet[((buffer >> bits) & 31) as usize] as char);
        }
    }
    if bits > 0 {
        out.push(alphabet[((buffer << (5 - bits)) & 31) as usize] as char);
    }
    out
}

#[test]
fn hex_server_id_gives_the_key_bytes() {
    assert_eq!(parse_server_id(KEY_HEX), Ok(key_bytes()));
}

#[test]
fn base32_server_id_gives_the_same_key() {
    let text = base32_lower(&key_bytes());
    assert_eq!(text.len(), 52);
    assert_eq!(parse_server_id(&text), Ok(key_bytes()));
    assert_eq!(parse_server_id(&text.to_uppercase()), Ok(key_bytes()));
}

#[test]
fn displayed_endpoint_ids_parse_back() {
    let key = iroh::PublicKey::from_bytes(&key_bytes()).unwrap();
    assert_eq!(parse_server_id(&key.to_string()), Ok(*key.as_bytes()));
}

#[test]
fn text_that_is_no_endpoint_id_is_refused() {
    assert_eq!(parse_server_id(""), Err(ServerIdError::NotAnEndpointId));
    assert_eq!(parse_server_id("not-a-server-id"), Err(ServerIdError::NotAnEndpointId));
    assert_eq!(parse_server_id(&KEY_HEX[..62]), Err(ServerIdError::NotAnEndpointId));
    assert_eq!(parse_server_id(&KEY_HEX.to_uppercase()), Err(ServerIdError::NotAnEndpointId));
}
