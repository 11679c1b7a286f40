use std::borrow::Cow;

use mainline_client::magnet::{uri_decode_value, MagnetFiles, MagnetHash, MagnetURIError};

#[test]
fn file_from_str() {
    let magnet1 =
        MagnetFiles::from_str("magnet:?xt=urn:md5:c12fe1c06bba254a9dc9f519b335aa7c1367a88a");
    let magnet2 =
        MagnetFiles::from_str("magnet:?xt=urn%3Amd5%3Ac12fe1c06bba254a9dc9f519b335aa7c1367a88a");

    assert_eq!(magnet1, magnet2); // errors: the value is not 32 hex characters

    let magnet1 = MagnetFiles::from_str("magnet:?xt.abc=urn:md5:c12fe1c06bba254a9dc9f519b335aa7c");
    let magnet2 =
        MagnetFiles::from_str("magnet:?xt.abc=urn%3amd5%3Ac12fe1c06bba254a9dc9f519b335aa7c");

    assert_eq!(magnet1, magnet2);
}

#[test]
fn test_uri_decode_value() {
    let no_replace_needed = uri_decode_value("ABCD").unwrap();
    assert!(matches!(no_replace_needed, Cow::Borrowed(_)));
    assert_eq!(no_replace_needed, "ABCD");

    let replace_needed = uri_decode_value("%41CD").unwrap();
    assert!(matches!(replace_needed, Cow::Owned(_)));
    assert_eq!(replace_needed, "ACD");
}

#[test]
fn test_uri_decode_value_invalid() {
    assert_eq!(
        uri_decode_value("%%"),
        Err(MagnetURIError::InvalidUseOfReservedChar)
    );
    assert_eq!(
        uri_decode_value("sad#asd"),
        Err(MagnetURIError::InvalidUseOfReservedChar)
    );
    assert_eq!(
        uri_decode_value("asd&asd"),
        Err(MagnetURIError::InvalidUseOfReservedChar)
    );
    assert_eq!(
        uri_decode_value("asd?asd"),
        Err(MagnetURIError::InvalidUseOfReservedChar)
    );
}

#[test]
fn test_uri_decode_plus_and_hex() {
    let v = uri_decode_value("a+b%20c").unwrap();
    assert_eq!(v, "a b c");
    assert_eq!(
        uri_decode_value("%4"),
        Err(MagnetURIError::InvalidUseOfReservedChar)
    );
    assert_eq!(
        uri_decode_value("%zz"),
        Err(MagnetURIError::InvalidHashCharacter)
    );
    // a decoded value that is not UTF-8 text is out of scope
    assert_eq!(uri_decode_value("%ff"), Err(MagnetURIError::NotImplemented));
}

#[test]
fn hash_from_str() {
    assert_eq!(
        MagnetHash::from_str("urn:md5:c12fe1c06bba254a9dc9f519b335aa7c"),
        Ok(MagnetHash::MD5([
            193, 47, 225, 192, 107, 186, 37, 74, 157, 201, 245, 25, 179, 53, 170, 124
        ]))
    );
    assert_eq!(
        MagnetHash::from_str("urn:btih:209c8226b299b308beaf2b9cd3fb49212dbd13ec"),
        Ok(MagnetHash::BTIH([
            32, 156, 130, 38, 178, 153, 179, 8, 190, 175, 43, 156, 211, 251, 73, 33, 45, 189, 19,
            236
        ]))
    );
    assert_eq!(
        MagnetHash::from_str("urn:sha1:MFRGGZDFMZTWQ2LKGAYTEMZUGU3DOOBZ"),
        Ok(MagnetHash::SHA1(*b"abcdefghij0123456789"))
    );
    assert_eq!(
        MagnetHash::from_str("urn:btih:MFRGGZDFMZTWQ2LKGAYTEMZUGU3DOOBZ"),
        Ok(MagnetHash::BTIH(*b"abcdefghij0123456789"))
    );
    assert_eq!(
        MagnetHash::from_str("urn:x-foo:abc"),
        Err(MagnetURIError::UnknownHashFunction)
    );
    assert_eq!(
        MagnetHash::from_str("urn:md5:c12f"),
        Err(MagnetURIError::InvalidHashLength)
    );
}

#[test]
fn magnet_scheme_errors() {
    assert_eq!(
        MagnetFiles::from_str("http://example/x"),
        Err(MagnetURIError::InvalidURIScheme)
    );
    assert_eq!(
        MagnetFiles::from_str("magnet:x"),
        Err(MagnetURIError::InvalidStartCharacter)
    );
}

#[test]
fn magnet_merges_files_by_key() {
    // one key with a hash and a name, a second key with only a name, and a
    // bare segment that is ignored
    let a = MagnetFiles::from_str(
        "magnet:?xt=urn:md5:c12fe1c06bba254a9dc9f519b335aa7c&dn=first+file&dn.2=second&junk",
    )
    .unwrap();
    let b = MagnetFiles::from_str(
        "magnet:?dn=wrong&xt=urn%3Amd5%3Ac12fe1c06bba254a9dc9f519b335aa7c&dn=first%20file&dn.2=second&junk",
    )
    .unwrap();
    assert_eq!(a, b);
}

#[test]
fn magnet_unknown_keys_ignored() {
    let a = MagnetFiles::from_str("magnet:?xt=urn:md5:c12fe1c06bba254a9dc9f519b335aa7c").unwrap();
    let b = MagnetFiles::from_str(
        "magnet:?tr=http%3A%2F%2Fexample&xt=urn:md5:c12fe1c06bba254a9dc9f519b335aa7c&ws=x",
    )
    .unwrap();
    assert_eq!(a, b);
}

#[test]
fn error_descriptions() {
    assert_eq!(
        MagnetURIError::InvalidURIScheme.description(),
        "URI scheme must be \"magnet:\""
    );
    assert_eq!(
        MagnetURIError::NotImplemented.description(),
        "Non-UTF-8 values are not supported"
    );
}
