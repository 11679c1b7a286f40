use mainline_client::encodings::{bytes_from_base32, bytes_from_hex, hex_to_byte, EncodingError};

#[test]
fn test_bytes_from_hex() {
    let sha11 = bytes_from_hex("abCDef");
    let sha12 = bytes_from_hex("ABcdEF");

    assert_eq!(Ok([0xAB, 0xCD, 0xEF]), sha12);
    assert_eq!(sha11, sha12);

    let bad1 = bytes_from_hex::<1>("A");
    assert_eq!(bad1.err(), Some(EncodingError::InvalidHashLength));
    let bad2 = bytes_from_hex::<1>("BCD");
    assert_eq!(bad2.err(), Some(EncodingError::InvalidHashLength));
}

#[test]
fn test_bytes_from_base32_case_insensitive() {
    let ac1 = bytes_from_base32::<1>("Ai======");
    let ac2 = bytes_from_base32::<1>("aI======");
    assert_eq!(ac1, ac2);
    assert_eq!(Ok([0x02]), ac2);
}

#[test]
fn test_bytes_from_base32_misc_length() {
    // 5 bytes: a full chunk must be read successfully
    let full_chunk = bytes_from_base32::<5>("77777777");
    assert_eq!(Ok([0xFF, 0xFF, 0xFF, 0xFF, 0xFF]), full_chunk);
    let full_chunk = bytes_from_base32::<5>("GLASda73");
    assert_eq!(Ok([0x32, 0xc1, 0x21, 0x83, 0xfb]), full_chunk);

    // 11 bytes: more than two full chunks
    let three_chunks = bytes_from_base32::<11>("77777777GL3Sda7y2A======");
    assert_eq!(
        Ok([0xFF, 0xFF, 0xFF, 0xFF, 0xFF, 0x32, 0xf7, 0x21, 0x83, 0xf8, 0xd0]),
        three_chunks
    );

    // more data after the padding begins
    let good_pad = bytes_from_base32::<3>("77776===");
    assert_eq!(good_pad, Ok([255, 255, 255]));
    let bad_pad = bytes_from_base32::<3>("77777===");
    assert_eq!(bad_pad, Err(EncodingError::InvalidHashCharacter));
    let bad_pad = bytes_from_base32::<3>("77776=1=");
    assert_eq!(bad_pad, Err(EncodingError::InvalidHashCharacter));
}

#[test]
fn test_2_bytes_from_base32() {
    assert_eq!(bytes_from_base32::<2>("abCQ===="), Ok([0x00, 0x45]));
    assert_eq!(
        bytes_from_base32::<2>("ABC3==="),
        Err(EncodingError::InvalidHashLength)
    );
    assert_eq!(
        bytes_from_base32::<2>("ABC3====="),
        Err(EncodingError::InvalidHashLength)
    );
}

#[test]
fn test_1_bytes_from_base32() {
    assert_eq!(bytes_from_base32::<1>("74======"), Ok([0xFF]));
    assert_eq!(
        bytes_from_base32::<1>("Ab======"),
        Err(EncodingError::InvalidHashCharacter)
    );
    assert_eq!(
        bytes_from_base32::<1>("ABC1===="),
        Err(EncodingError::InvalidHashCharacter)
    );
}

#[test]
fn test_6_bytes_from_base32() {
    assert_eq!(
        bytes_from_base32::<6>("GL3Sda7y2A======"),
        Ok([0x32, 0xf7, 0x21, 0x83, 0xf8, 0xd0])
    );
    assert_eq!(
        bytes_from_base32::<6>("ABC7==========="),
        Err(EncodingError::InvalidHashLength)
    );
    assert_eq!(
        bytes_from_base32::<6>("ABC3============="),
        Err(EncodingError::InvalidHashLength)
    );
}

#[test]
fn test_hex_to_byte_values() {
    assert_eq!(hex_to_byte(0x30, 0x39), Ok(0x09));
    assert_eq!(hex_to_byte(0x61, 0x66), Ok(0xaf));
    assert_eq!(hex_to_byte(0x41, 0x46), Ok(0xaf));
    assert_eq!(hex_to_byte(0x67, 0x30), Err(EncodingError::InvalidHashCharacter));
    assert_eq!(hex_to_byte(0x47, 0x30), Err(EncodingError::InvalidHashCharacter));
}

#[test]
fn test_hex_invalid_character() {
    assert_eq!(
        bytes_from_hex::<1>("Gg"),
        Err(EncodingError::InvalidHashCharacter)
    );
}

#[test]
fn test_hex_round_trip_20_bytes() {
    let x: [u8; 20] = *b"abcdefghij0123456789";
    let decoded = bytes_from_hex::<20>("6162636465666768696a30313233343536373839");
    assert_eq!(decoded, Ok(x));
    let upper = bytes_from_hex::<20>("6162636465666768696A30313233343536373839");
    assert_eq!(upper, Ok(x));
}

#[test]
fn test_base32_round_trip_20_bytes() {
    let x: [u8; 20] = *b"abcdefghij0123456789";
    let decoded = bytes_from_base32::<20>("MFRGGZDFMZTWQ2LKGAYTEMZUGU3DOOBZ");
    assert_eq!(decoded, Ok(x));
    let lower = bytes_from_base32::<20>("mfrggzdfmztwq2lkgaytemzugu3doobz");
    assert_eq!(lower, Ok(x));
}
