use libqaul::error::Error;
use libqaul::hexcode::{from_hex, to_hex, HexError};
use libqaul::identity::{Identity, ID_LEN};
use libqaul::order::bytes_lt;
use libqaul::text::{same_bytes, same_text, text_of};

#[test]
fn hex_text_of_bytes() {
    assert_eq!(to_hex(&[]), "");
    assert_eq!(to_hex(&[0]), "00");
    assert_eq!(to_hex(&[1, 2, 3, 15, 16]), "0102030F10");
    assert_eq!(to_hex(&[0xac, 0xab, 0xff, 0x9a]), "ACABFF9A");
}

#[test]
fn hex_text_is_read_back() {
    assert_eq!(from_hex("").unwrap(), Vec::<u8>::new());
    assert_eq!(from_hex("0102030F10").unwrap(), vec![1, 2, 3, 15, 16]);
    assert_eq!(from_hex("acabFF9a").unwrap(), vec![0xac, 0xab, 0xff, 0x9a]);
    for v in [vec![], vec![0u8], vec![255, 0, 128, 127], (0..=255).collect::<Vec<u8>>()] {
        assert_eq!(from_hex(&to_hex(&v)).unwrap(), v);
    }
}

#[test]
fn hex_text_errors() {
    assert_eq!(from_hex("123").unwrap_err(), HexError::OddLength);
    assert_eq!(
        from_hex("12g4").unwrap_err(),
        HexError::InvalidHexCharacter { c: 'g', index: 2 }
    );
    assert_eq!(
        from_hex("zz").unwrap_err(),
        HexError::InvalidHexCharacter { c: 'z', index: 0 }
    );
    // odd length is seen before a bad digit
    assert_eq!(from_hex("zzz").unwrap_err(), HexError::OddLength);
    // a character of two bytes is two bad digits
    assert!(matches!(from_hex("é").unwrap_err(), HexError::InvalidHexCharacter { index: 0, .. }));
}

#[test]
fn byte_strings_are_ordered_like_words() {
    assert!(bytes_lt(b"", b"a"));
    assert!(!bytes_lt(b"", b""));
    assert!(bytes_lt(b"a", b"ab"));
    assert!(!bytes_lt(b"ab", b"a"));
    assert!(bytes_lt(b"ab", b"b"));
    assert!(bytes_lt(&[1, 2, 3], &[1, 2, 4]));
    assert!(!bytes_lt(&[1, 2, 4], &[1, 2, 3]));
    assert!(!bytes_lt(&[7], &[7]));
    for (a, b) in [(&b"x"[..], &b"y"[..]), (b"xy", b"x"), (b"", b""), (b"\xff", b"\x00\x00")] {
        assert_eq!(bytes_lt(a, b), a < b);
    }
}

#[test]
fn texts_are_compared_by_their_characters() {
    assert!(same_text("", ""));
    assert!(same_text("käse", "käse"));
    assert!(!same_text("key", "keys"));
    assert!(!same_text("key", "kex"));
    assert!(same_bytes(&[1, 2], &[1, 2]));
    assert!(!same_bytes(&[1, 2], &[1]));
}

#[test]
fn bytes_become_text_only_if_they_are_utf8() {
    assert_eq!(text_of(vec![]).unwrap(), "");
    assert_eq!(text_of("grüße".as_bytes().to_vec()).unwrap(), "grüße");
    assert!(text_of(vec![0xff]).is_none());
    assert!(text_of(vec![0xc3]).is_none());
    assert!(text_of(vec![0xed, 0xa0, 0x80]).is_none());
}

#[test]
fn identities_have_a_fixed_width() {
    assert_eq!(ID_LEN, 32);
    assert!(Identity::from_bytes(&[0; 31]).is_none());
    assert!(Identity::from_bytes(&[0; 33]).is_none());
    assert!(Identity::from_bytes(&[]).is_none());
    let bytes: Vec<u8> = (0..32).collect();
    let id = Identity::from_bytes(&bytes).unwrap();
    assert_eq!(id.as_bytes(), bytes.as_slice());
    assert_eq!(id.to_vec(), bytes);
    assert_eq!(id, Identity::from_bytes(&bytes).unwrap());
    assert_ne!(id, Identity::from_bytes(&[0; 32]).unwrap());
}

#[test]
fn identities_as_text() {
    let bytes: Vec<u8> = (0..32).collect();
    let id = Identity::from_bytes(&bytes).unwrap();
    let text = id.to_string();
    assert_eq!(text, "000102030405060708090A0B0C0D0E0F101112131415161718191A1B1C1D1E1F");
    assert_eq!(Identity::from_string(&text).unwrap(), id);
    assert_eq!(Identity::from_string(&text.to_lowercase()).unwrap(), id);
    assert!(Identity::from_string("00").is_none());
    assert!(Identity::from_string("xyz").is_none());
    assert!(Identity::from_string(&format!("{}00", text)).is_none());
}

#[test]
fn errors_in_words() {
    assert_eq!(Error::NotAuthorised.to_string(), "Not authorised to perform this action");
    assert_eq!(Error::NoUser.message(), "The desired user was not known");
    assert_eq!(Error::ContactExists.message(), "The provided contact already exists");
    assert_eq!(Error::NoContact.message(), "The desired contact does not exist");
    assert_eq!(Error::InvalidQuery.message(), "Invalid search query");
    assert_eq!(Error::NoData.message(), "No data was returned for the provided query");
    assert_eq!(Error::InvalidPayload.message(), "Invalid payload (probably too big)");
    assert_eq!(Error::CallbackTimeout.message(), "A function callback timed out");
    assert_eq!(Error::NoSign.message(), "Signature with an unknown public key");
    assert_eq!(Error::BadSign.message(), "Fraudulent signature for a known public key");
    assert_eq!(Error::NetworkFault.message(), "A generic networking error occured");
    assert_eq!(Error::NoRoute.message(), "Failed to find a route to this user");
    assert_eq!(Error::BadSerialise.message(), "Some serialisation action failed");
    assert_eq!(Error::NoService.message(), "No such service was found");
    assert_eq!(Error::ServiceExists.message(), "A sevice with this name already exists");
    assert_eq!(Error::CommFault.message(), "Some internal components failed to communicate");
}

#[test]
fn help_in_the_language_asked_for() {
    assert_eq!(Error::NoData.help(None), "An unknown Error occured");
    assert_eq!(Error::NoData.help(Some("en")), "An unknown Error occured");
    assert_eq!(Error::NoData.help(Some("de")), "Ein unbekannter Fehler ist aufgetreten");
    assert_eq!(Error::NoUser.help(Some("ar")), "حدث خطأ غير معروف");
    assert_eq!(Error::NoUser.help(Some("")), "An unknown Error occured");
}
