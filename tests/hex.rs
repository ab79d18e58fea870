use code_search::error::SearchError;
use code_search::hex::{decode_hex, encode_hex};

#[test]
fn decode_grouped_and_plain_text() {
    assert_eq!(decode_hex("E3 EE b0 95"), Ok(vec![0xE3, 0xEE, 0xB0, 0x95]));
    assert_eq!(decode_hex("e3eeB095"), Ok(vec![0xE3, 0xEE, 0xB0, 0x95]));
    assert_eq!(decode_hex(" 0\t0\nff \r"), Ok(vec![0x00, 0xFF]));
}

#[test]
fn decode_irregular_grouping() {
    let spaced = "E3EEB0955 8C96E6C4563CE73914C32F7D2EA5154627ADF3C4B86A417D7F5D0C8";
    let grouped = "E3 EE B0 95 58 C9 6E 6C 45 63 CE 73 91 4C 32 F7 D2 EA 51 54 62 7A DF 3C 4B 86 A4 17 D7 F5 D0 C8";
    let a = decode_hex(spaced).unwrap();
    assert_eq!(a.len(), 32);
    assert_eq!(a, decode_hex(grouped).unwrap());
    let suffix = decode_hex("B4C0E29095876FF60510C434C01C4CA4CE41EB205777 33EA87DCC479E3CEF53C").unwrap();
    assert_eq!(suffix.len(), 32);
    assert_eq!(suffix[0], 0xB4);
    assert_eq!(suffix[31], 0x3C);
}

#[test]
fn decode_empty_is_malformed() {
    assert_eq!(decode_hex(""), Err(SearchError::MalformedHex { position: 0 }));
    assert_eq!(decode_hex("   "), Err(SearchError::MalformedHex { position: 0 }));
}

#[test]
fn decode_odd_length_is_malformed() {
    assert_eq!(decode_hex("abc"), Err(SearchError::MalformedHex { position: 3 }));
    assert_eq!(decode_hex("a"), Err(SearchError::MalformedHex { position: 1 }));
}

#[test]
fn decode_non_hex_is_malformed() {
    assert_eq!(decode_hex("0g"), Err(SearchError::MalformedHex { position: 1 }));
    assert_eq!(decode_hex("+1"), Err(SearchError::MalformedHex { position: 0 }));
    assert_eq!(decode_hex("ab cz 12"), Err(SearchError::MalformedHex { position: 3 }));
    assert_eq!(decode_hex("aé"), Err(SearchError::MalformedHex { position: 1 }));
    assert_eq!(decode_hex("zzz"), Err(SearchError::MalformedHex { position: 0 }));
}

#[test]
fn encode_uppercase_pairs() {
    assert_eq!(encode_hex(&[0x00, 0xAB, 0xFF, 0x09]), "00ABFF09");
    assert_eq!(encode_hex(&[]), "");
}

#[test]
fn decode_then_encode_round_trip() {
    let bytes = decode_hex("de AD be ef 01").unwrap();
    let text = encode_hex(&bytes);
    assert_eq!(text, "DEADBEEF01");
    assert_eq!(decode_hex(&text), Ok(bytes));
    let all: Vec<u8> = (0u8..=255).collect();
    assert_eq!(decode_hex(&encode_hex(&all)), Ok(all));
}
