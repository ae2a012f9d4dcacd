use incredibulk_core::b64::{decode, encode};

#[test]
fn matches_the_known_vectors() {
    assert_eq!(encode(b""), "");
    assert_eq!(encode(b"f"), "Zg==");
    assert_eq!(encode(b"fo"), "Zm8=");
    assert_eq!(encode(b"foo"), "Zm9v");
    assert_eq!(encode(b"foob"), "Zm9vYg==");
    assert_eq!(encode(b"fooba"), "Zm9vYmE=");
    assert_eq!(encode(b"foobar"), "Zm9vYmFy");
}

#[test]
fn round_trips_every_byte_value() {
    let all: Vec<u8> = (0..=255).collect();
    assert_eq!(decode(&encode(&all)).as_deref(), Some(all.as_slice()));
}

#[test]
fn round_trips_at_every_padding_length() {
    for len in 0..16 {
        let data: Vec<u8> = (0..len).map(|i| i as u8).collect();
        assert_eq!(decode(&encode(&data)), Some(data.clone()), "length {len}");
    }
}

#[test]
fn rejects_characters_outside_the_alphabet() {
    assert_eq!(decode("Zm9v!!!!"), None);
}

#[test]
fn tolerates_whitespace_from_a_wrapped_file() {
    assert!(decode("Zm9v\n Ymfy").is_some());
}
