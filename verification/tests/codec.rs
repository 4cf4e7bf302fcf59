use nova_market::codec::{decode_listing, encode_listing, RECORD_LEN};
use nova_market::market::Listing;

fn sample() -> Listing {
    Listing { seller: 0x0102_0304_0506_0708, asset: 42, price: 515, nonce: 9 }
}

#[test]
fn encode_produces_the_documented_layout() {
    let bytes = encode_listing(&sample());
    assert_eq!(bytes.len(), RECORD_LEN);
    assert_eq!(bytes.len(), 73);
    // Seller field: little-endian in the first 8 bytes, then zero padding.
    assert_eq!(&bytes[0..8], &[0x08, 0x07, 0x06, 0x05, 0x04, 0x03, 0x02, 0x01]);
    assert!(bytes[8..32].iter().all(|b| *b == 0));
    // Asset field at offset 32.
    assert_eq!(bytes[32], 42);
    assert!(bytes[33..64].iter().all(|b| *b == 0));
    // Price 515 = 0x0203 little-endian at offset 64; nonce last.
    assert_eq!(&bytes[64..72], &[0x03, 0x02, 0, 0, 0, 0, 0, 0]);
    assert_eq!(bytes[72], 9);
}

#[test]
fn decode_inverts_encode() {
    let l = sample();
    assert_eq!(decode_listing(&encode_listing(&l)), Some(l));
    let extremes = Listing { seller: u64::MAX, asset: u64::MAX, price: u64::MAX, nonce: 255 };
    assert_eq!(decode_listing(&encode_listing(&extremes)), Some(extremes));
    let zeroes = Listing { seller: 0, asset: 0, price: 0, nonce: 0 };
    assert_eq!(decode_listing(&encode_listing(&zeroes)), Some(zeroes));
}

#[test]
fn decode_rejects_wrong_length() {
    let mut bytes = encode_listing(&sample());
    bytes.pop();
    assert_eq!(decode_listing(&bytes), None);
    assert_eq!(decode_listing(&Vec::new()), None);
}

#[test]
fn decode_rejects_nonzero_identity_padding() {
    let mut bytes = encode_listing(&sample());
    bytes[20] = 1;
    assert_eq!(decode_listing(&bytes), None);
    let mut bytes2 = encode_listing(&sample());
    bytes2[63] = 7;
    assert_eq!(decode_listing(&bytes2), None);
}

#[test]
fn decode_accepts_a_record_built_by_hand() {
    let mut bytes = vec![0u8; 73];
    bytes[0] = 7; // seller 7
    bytes[32] = 100; // asset 100
    bytes[64] = 50; // price 50
    bytes[72] = 3; // nonce 3
    assert_eq!(
        decode_listing(&bytes),
        Some(Listing { seller: 7, asset: 100, price: 50, nonce: 3 })
    );
}
