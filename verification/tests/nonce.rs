use cima_server::error::Error;
use cima_server::nonce::{bind_nonce, decode, encode, is_encodable};

#[test]
fn encode_writes_standard_base64() {
    assert_eq!(encode(b"hello world~"), Some("aGVsbG8gd29ybGR+".to_string()));
    assert_eq!(encode(b"nonce-bytes"), Some("bm9uY2UtYnl0ZXM=".to_string()));
    assert_eq!(encode(b""), Some(String::new()));
}

#[test]
fn decode_reads_standard_base64() {
    assert_eq!(decode("aGVsbG8gd29ybGR+"), Some(b"hello world~".to_vec()));
    assert_eq!(decode("bm9uY2UtYnl0ZXM="), Some(b"nonce-bytes".to_vec()));
    assert_eq!(decode(""), Some(Vec::new()));
    assert_eq!(decode("not base64!"), None);
    assert_eq!(decode("bm9uY2UtYnl0ZXM"), None);
}

#[test]
fn bound_nonce_holds_the_register_in_front_of_the_nonce() {
    let register = [0xf9u8, 0x96, 0x0f];
    assert_eq!(bind_nonce(&register, "bm9uY2UtYnl0ZXM="), Ok("+ZYPbm9uY2UtYnl0ZXM=".to_string()));
    assert_eq!(decode("+ZYPbm9uY2UtYnl0ZXM="), Some([&register[..], &b"nonce-bytes"[..]].concat()));
    assert_eq!(bind_nonce(&register, ""), Ok("+ZYP".to_string()));
    assert_eq!(bind_nonce(&[], "bm9uY2UtYnl0ZXM="), Ok("bm9uY2UtYnl0ZXM=".to_string()));
}

#[test]
fn nonce_that_is_not_base64_is_refused() {
    assert_eq!(bind_nonce(&[1, 2, 3], "%%%"), Err(Error::InvalidEncoding));
}

#[test]
fn lengths_that_fit_are_encodable() {
    assert!(is_encodable(0));
    assert!(is_encodable(64));
    assert!(is_encodable(1 << 20));
    assert!(!is_encodable(usize::MAX));
}
