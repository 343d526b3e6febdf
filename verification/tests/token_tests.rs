use auth::codec::{u64_to_dec, TokenCodec, Claims};
use auth::error::Error;

fn key() -> Vec<u8> {
    b"test-signing-secret".to_vec()
}

#[test]
fn dec_zero() {
    assert_eq!(u64_to_dec(0), "0");
}

#[test]
fn dec_small() {
    assert_eq!(u64_to_dec(42), "42");
}

#[test]
fn dec_max() {
    assert_eq!(u64_to_dec(u64::MAX), "18446744073709551615");
}

#[test]
fn mint_shape() {
    let codec = TokenCodec::new(key());
    let token = codec.mint(7, 1000, 3600);
    assert!(token.starts_with("7.1000.4600."));
    // base64url HMAC-SHA256 tag: 43 characters, no padding
    let sig = &token["7.1000.4600.".len()..];
    assert_eq!(sig.len(), 43);
}

#[test]
fn mint_decode_roundtrip() {
    let codec = TokenCodec::new(key());
    let token = codec.mint(12345, 1000, 3600);
    let claims = codec.decode(&token, 2000).unwrap();
    assert_eq!(claims, Claims { sub: 12345, iat: 1000, exp: 4600 });
}

#[test]
fn decode_expired() {
    let codec = TokenCodec::new(key());
    let token = codec.mint(1, 1000, 3600);
    assert_eq!(codec.decode(&token, 4600), Err(Error::TokenExpired));
    assert_eq!(codec.decode(&token, 4599).map(|c| c.sub), Ok(1));
}

#[test]
fn decode_zero_ttl_expired_at_once() {
    let codec = TokenCodec::new(key());
    let token = codec.mint(1, 1000, 0);
    assert_eq!(codec.decode(&token, 1000), Err(Error::TokenExpired));
}

#[test]
fn decode_saturating_expiry() {
    let codec = TokenCodec::new(key());
    let token = codec.mint(1, u64::MAX - 5, 3600);
    let claims = codec.decode(&token, u64::MAX - 1).unwrap();
    assert_eq!(claims.exp, u64::MAX);
}

#[test]
fn decode_malformed() {
    let codec = TokenCodec::new(key());
    assert_eq!(codec.decode("", 0), Err(Error::TokenInvalid));
    assert_eq!(codec.decode("not-a-token", 0), Err(Error::TokenInvalid));
    assert_eq!(codec.decode("1.2.3", 0), Err(Error::TokenInvalid));
    assert_eq!(codec.decode("a.b.c.d", 0), Err(Error::TokenInvalid));
}

#[test]
fn decode_tampered_payload() {
    let codec = TokenCodec::new(key());
    let token = codec.mint(7, 1000, 3600);
    let tampered = token.replacen('7', "8", 1);
    assert_eq!(codec.decode(&tampered, 2000), Err(Error::TokenInvalid));
}

#[test]
fn decode_wrong_key() {
    let codec = TokenCodec::new(key());
    let other = TokenCodec::new(b"another-secret".to_vec());
    let token = codec.mint(7, 1000, 3600);
    assert_eq!(other.decode(&token, 2000), Err(Error::TokenInvalid));
    assert!(codec.decode(&token, 2000).is_ok());
}

#[test]
fn decode_tampered_signature() {
    let codec = TokenCodec::new(key());
    let token = codec.mint(7, 1000, 3600);
    let mut tampered = token.clone();
    let last = tampered.pop().unwrap();
    tampered.push(if last == 'A' { 'B' } else { 'A' });
    assert_eq!(codec.decode(&tampered, 2000), Err(Error::TokenInvalid));
}
