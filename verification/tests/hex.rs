use git_objects::digest::{from_hex, to_hex};
use git_objects::error::Error;
use git_objects::hex::{decode_hex, encode_hex};

#[test]
fn encode_hex_is_lower_case_high_half_first() {
    assert_eq!(encode_hex(&[0x1f]), "1f");
    assert_eq!(encode_hex(&[0xf1]), "f1");
    assert_eq!(encode_hex(&[0xab, 0xcd, 0xef, 0x09]), "abcdef09");
    assert_eq!(encode_hex(&[]), "");
}

#[test]
fn encode_hex_covers_every_byte() {
    let all: Vec<u8> = (0u8..=255).collect();
    let text = encode_hex(&all);
    assert_eq!(text.len(), 512);
    for (i, b) in all.iter().enumerate() {
        assert_eq!(&text[2 * i..2 * i + 2], format!("{:02x}", b));
    }
    assert_eq!(decode_hex(&text), Ok(all));
}

#[test]
fn decode_hex_takes_both_cases() {
    assert_eq!(decode_hex("0aFf"), Ok(vec![0x0a, 0xff]));
    assert_eq!(decode_hex("ABCDEF"), Ok(vec![0xab, 0xcd, 0xef]));
    assert_eq!(decode_hex(""), Ok(Vec::new()));
}

#[test]
fn decode_hex_refuses_what_is_not_hexadecimal() {
    assert_eq!(decode_hex("0g"), Err(Error::InvalidArgument));
    assert_eq!(decode_hex("+f"), Err(Error::InvalidArgument));
    assert_eq!(decode_hex(" 0"), Err(Error::InvalidArgument));
    assert_eq!(decode_hex("0/"), Err(Error::InvalidArgument));
    assert_eq!(decode_hex("0:"), Err(Error::InvalidArgument));
    assert_eq!(decode_hex("0@"), Err(Error::InvalidArgument));
    assert_eq!(decode_hex("0G"), Err(Error::InvalidArgument));
    assert_eq!(decode_hex("0`"), Err(Error::InvalidArgument));
    assert_eq!(decode_hex("\u{e9}"), Err(Error::InvalidArgument));
    assert_eq!(decode_hex("0\u{e9}0"), Err(Error::InvalidArgument));
}

#[test]
fn decode_hex_refuses_half_a_byte() {
    assert_eq!(decode_hex("abc"), Err(Error::InvalidArgument));
    assert_eq!(decode_hex("a"), Err(Error::InvalidArgument));
}

#[test]
fn to_hex_writes_forty_digits() {
    let mut digest = [0u8; 20];
    for i in 0..20 {
        digest[i] = (i * 13) as u8;
    }
    let text = to_hex(&digest);
    assert_eq!(text.len(), 40);
    assert_eq!(text, "000d1a2734414e5b6875828f9ca9b6c3d0ddeaf7");
}

#[test]
fn from_hex_undoes_to_hex() {
    let mut digest = [0u8; 20];
    for i in 0..20 {
        digest[i] = 255 - (i * 7) as u8;
    }
    assert_eq!(from_hex(&to_hex(&digest)), Ok(digest));
    assert_eq!(
        to_hex(&from_hex("BD9DBF5AAE1A3862DD1526723246B20206E5FC37").unwrap()),
        "bd9dbf5aae1a3862dd1526723246b20206e5fc37"
    );
}

#[test]
fn from_hex_refuses_a_wrong_length() {
    assert_eq!(from_hex(""), Err(Error::InvalidArgument));
    assert_eq!(
        from_hex("bd9dbf5aae1a3862dd1526723246b20206e5fc"),
        Err(Error::InvalidArgument)
    );
    assert_eq!(
        from_hex("bd9dbf5aae1a3862dd1526723246b20206e5fc3"),
        Err(Error::InvalidArgument)
    );
    assert_eq!(
        from_hex("bd9dbf5aae1a3862dd1526723246b20206e5fc3700"),
        Err(Error::InvalidArgument)
    );
}

#[test]
fn from_hex_refuses_other_characters() {
    assert_eq!(
        from_hex("bd9dbf5aae1a3862dd1526723246b20206e5fcxy"),
        Err(Error::InvalidArgument)
    );
    assert_eq!(
        from_hex("bd9dbf5aae1a3862dd15 6723246b20206e5fc37"),
        Err(Error::InvalidArgument)
    );
}
