use wake_on_lan::error::WakeError;
use wake_on_lan::mac::{hex_digit, MacAddress, MAC_TEXT_LEN};
use wake_on_lan::packet::{MagicPacket, MAC_REPEATS, PACKET_LEN, SYNC_BYTE, SYNC_LEN};

fn expected_packet(mac: [u8; 6]) -> Vec<u8> {
    let mut bytes = vec![0xFFu8; 6];
    for _ in 0..16 {
        bytes.extend_from_slice(&mac);
    }
    bytes
}

#[test]
fn hex_digits_of_both_cases() {
    assert_eq!(hex_digit('0'), Some(0));
    assert_eq!(hex_digit('9'), Some(9));
    assert_eq!(hex_digit('a'), Some(10));
    assert_eq!(hex_digit('f'), Some(15));
    assert_eq!(hex_digit('A'), Some(10));
    assert_eq!(hex_digit('F'), Some(15));
}

#[test]
fn characters_that_are_no_hex_digits() {
    for c in ['g', 'G', ':', ' ', '/', '@', '`', '+', '-', 'x', '\u{ff10}', '\u{e9}'] {
        assert_eq!(hex_digit(c), None, "{:?}", c);
    }
}

#[test]
fn parse_reads_six_octets() {
    let mac = MacAddress::parse("01:02:03:04:05:06").unwrap();
    assert_eq!(mac.octets(), [1, 2, 3, 4, 5, 6]);
    let mac = MacAddress::parse("00:1b:63:84:45:e6").unwrap();
    assert_eq!(mac.octets(), [0x00, 0x1b, 0x63, 0x84, 0x45, 0xe6]);
    let mac = MacAddress::parse("ff:ff:ff:ff:ff:ff").unwrap();
    assert_eq!(mac.octets(), [0xff; 6]);
    let mac = MacAddress::parse("00:00:00:00:00:00").unwrap();
    assert_eq!(mac.octets(), [0; 6]);
}

#[test]
fn parse_puts_the_first_digit_high() {
    let mac = MacAddress::parse("10:01:a0:0a:f1:1f").unwrap();
    assert_eq!(mac.octets(), [0x10, 0x01, 0xa0, 0x0a, 0xf1, 0x1f]);
}

#[test]
fn parse_ignores_case() {
    let upper = MacAddress::parse("AA:BB:CC:DD:EE:FF").unwrap();
    let lower = MacAddress::parse("aa:bb:cc:dd:ee:ff").unwrap();
    let mixed = MacAddress::parse("aA:Bb:cC:Dd:eE:Ff").unwrap();
    assert_eq!(upper, lower);
    assert_eq!(upper, mixed);
    assert_eq!(upper.octets(), [0xaa, 0xbb, 0xcc, 0xdd, 0xee, 0xff]);
}

#[test]
fn packets_ignore_case() {
    let upper = MagicPacket::build_from_text("AA:BB:CC:DD:EE:FF").unwrap();
    let lower = MagicPacket::build_from_text("aa:bb:cc:dd:ee:ff").unwrap();
    assert_eq!(upper.as_bytes(), lower.as_bytes());
    assert_eq!(upper, lower);
}

#[test]
fn parse_rejects_wrong_token_counts() {
    for text in [
        "",
        ":",
        "01",
        "01:02:03:04:05",
        "01:02:03:04:05:06:07",
        "01:02:03:04:05:06:",
        ":01:02:03:04:05:06",
        "01:02:03:04:05:",
        "01:02::03:04:05:06",
        "01:02:03:04:0506",
        "010203040506",
        ":::::",
    ] {
        assert_eq!(MacAddress::parse(text), Err(WakeError::InvalidMacAddress), "{:?}", text);
    }
}

#[test]
fn parse_rejects_what_is_no_hex_digit() {
    for text in [
        "GG:02:03:04:05:06",
        "01:02:03:04:05:0g",
        "01:02:03:04:05:0G",
        "01-02-03-04-05-06",
        "01:02:03:04:05:0 ",
        " 1:02:03:04:05:06",
        "+1:02:03:04:05:06",
        "-1:02:03:04:05:06",
        "0x:02:03:04:05:06",
        "01:02:03:04:05:0\u{e9}",
        "\u{ff10}1:02:03:04:05:06",
    ] {
        assert_eq!(MacAddress::parse(text), Err(WakeError::InvalidMacAddress), "{:?}", text);
    }
}

#[test]
fn parse_rejects_tokens_that_are_not_two_digits() {
    for text in [
        "1:2:3:4:5:6",
        "001:02:03:04:05:06",
        "100:02:03:04:05:06",
        "01:02:03:04:05:6",
        "01:02:03:04:05:006",
        "1:002:03:04:05:06:",
        "01:2:003:04:05:06",
        "0102:03:04:05:06:07",
    ] {
        assert_eq!(MacAddress::parse(text), Err(WakeError::InvalidMacAddress), "{:?}", text);
    }
}

#[test]
fn address_text_has_seventeen_characters() {
    assert_eq!(MAC_TEXT_LEN, 17);
    assert_eq!("01:02:03:04:05:06".len(), MAC_TEXT_LEN);
}

#[test]
fn new_keeps_the_octets() {
    let mac = MacAddress::new([9, 8, 7, 6, 5, 4]);
    assert_eq!(mac.octets(), [9, 8, 7, 6, 5, 4]);
    assert_eq!(mac, MacAddress::parse("09:08:07:06:05:04").unwrap());
}

#[test]
fn packet_constants() {
    assert_eq!(SYNC_BYTE, 0xFF);
    assert_eq!(SYNC_LEN, 6);
    assert_eq!(MAC_REPEATS, 16);
    assert_eq!(PACKET_LEN, 102);
    assert_eq!(SYNC_LEN + 6 * MAC_REPEATS, PACKET_LEN);
}

#[test]
fn packet_for_one_to_six() {
    let packet = MagicPacket::build_from_text("01:02:03:04:05:06").unwrap();
    let bytes = packet.as_bytes();
    assert_eq!(bytes.len(), 102);
    assert_eq!(&bytes[..6], &[0xFF, 0xFF, 0xFF, 0xFF, 0xFF, 0xFF]);
    for block in 0..16 {
        let at = 6 + 6 * block;
        assert_eq!(&bytes[at..at + 6], &[0x01, 0x02, 0x03, 0x04, 0x05, 0x06], "block {}", block);
    }
    assert_eq!(bytes, expected_packet([1, 2, 3, 4, 5, 6]).as_slice());
}

#[test]
fn packet_layout_for_several_addresses() {
    for mac in [[0u8; 6], [0xFF; 6], [0xDE, 0xAD, 0xBE, 0xEF, 0x00, 0x01], [1, 0, 0, 0, 0, 2]] {
        let packet = MagicPacket::build(MacAddress::new(mac));
        assert_eq!(packet.as_bytes().len(), PACKET_LEN);
        assert_eq!(packet.as_bytes(), expected_packet(mac).as_slice());
        assert_eq!(packet.clone().into_bytes(), expected_packet(mac));
    }
}

#[test]
fn packet_is_not_the_address_alone() {
    let mac = [1u8, 2, 3, 4, 5, 6];
    let packet = MagicPacket::build(MacAddress::new(mac));
    assert_ne!(packet.as_bytes(), &mac[..]);
    assert_eq!(packet.as_bytes()[6], 1);
    assert_eq!(packet.as_bytes()[11], 6);
    assert_eq!(packet.as_bytes()[12], 1);
    assert_eq!(packet.as_bytes()[101], 6);
}

#[test]
fn building_twice_gives_the_same_bytes() {
    let mac = MacAddress::parse("3c:52:82:0a:1b:2c").unwrap();
    let first = MagicPacket::build(mac);
    let second = MagicPacket::build(mac);
    assert_eq!(first.as_bytes(), second.as_bytes());
    assert_eq!(first, second);
}

#[test]
fn packet_names_its_target() {
    let mac = MacAddress::parse("3c:52:82:0a:1b:2c").unwrap();
    let packet = MagicPacket::build(mac);
    assert_eq!(packet.target(), mac);
    assert_eq!(packet.clone().target().octets(), [0x3c, 0x52, 0x82, 0x0a, 0x1b, 0x2c]);
}

#[test]
fn no_packet_from_invalid_text() {
    for text in ["GG:02:03:04:05:06", "01:02:03:04:05", ""] {
        assert_eq!(MagicPacket::build_from_text(text), Err(WakeError::InvalidMacAddress));
    }
}

#[test]
fn hex_digit_agrees_with_the_standard_library() {
    for code in 0u32..0x300 {
        let c = char::from_u32(code).unwrap();
        assert_eq!(hex_digit(c), c.to_digit(16).map(|d| d as u8), "{:?}", c);
    }
}

/// Whether the colons of `text` cut it into six pieces of two hexadecimal digits.
fn is_six_pairs(text: &str) -> bool {
    let pieces: Vec<&str> = text.split(':').collect();
    pieces.len() == 6
        && pieces.iter().all(|piece| {
            piece.chars().count() == 2 && piece.chars().all(|c| c.is_ascii_hexdigit())
        })
}

#[test]
fn parse_accepts_exactly_six_pairs_of_digits() {
    let texts = [
        "01:02:03:04:05:06",
        "aB:cD:eF:00:99:1f",
        "01:02:03:04:05:6",
        "01:02:03:04:05:06:",
        "01:02:03:04:05",
        "0102:03:04:05:06:07",
        "01:02:03:04:05:0g",
        "0:102:03:04:05:06",
        "::::::::::::::::::",
        "01 02 03 04 05 06",
        "",
    ];
    for text in texts {
        assert_eq!(MacAddress::parse(text).is_ok(), is_six_pairs(text), "{:?}", text);
    }
    let digits = ['0', '9', 'a', 'F', ':', 'g', ' '];
    for a in digits {
        for b in digits {
            for c in digits {
                let text = format!("{}{}{}02:03:04:05:{}{}", a, b, c, b, a);
                assert_eq!(MacAddress::parse(&text).is_ok(), is_six_pairs(&text), "{:?}", text);
            }
        }
    }
}
