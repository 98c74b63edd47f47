use eve_log_scripts::utf16::{decode_units_lossy, encode_text_utf16, from_utf16le_lossy, read_unit, units_of_bytes, REPLACEMENT};

fn le_bytes(s: &str) -> Vec<u8> {
    s.encode_utf16().flat_map(|u| u.to_le_bytes()).collect()
}

#[test]
fn encodes_like_std() {
    for s in ["", "abc", "héllo", "😀 fleet", "\u{FFFF}\u{10000}\u{10FFFF}"] {
        let cs: Vec<char> = s.chars().collect();
        assert_eq!(encode_text_utf16(&cs), s.encode_utf16().collect::<Vec<u16>>());
    }
    assert_eq!(encode_text_utf16(&['a', '😀']), vec![0x61, 0xD83D, 0xDE00]);
}

#[test]
fn decodes_lossy_like_std() {
    let cases: Vec<Vec<u16>> = vec![
        vec![],
        vec![0x61, 0x62],
        vec![0xD83D, 0xDE00],
        vec![0xD800, 0x61],
        vec![0xDC00],
        vec![0x61, 0xD83D],
        vec![0xD83D, 0xD83D, 0xDE00],
    ];
    for us in cases {
        let expected: Vec<char> = char::decode_utf16(us.iter().copied()).map(|r| r.unwrap_or(REPLACEMENT)).collect();
        assert_eq!(decode_units_lossy(&us), expected, "{:?}", us);
    }
    assert_eq!(decode_units_lossy(&[0xD800, 0x61]), vec!['\u{FFFD}', 'a']);
}

#[test]
fn reads_little_endian_units() {
    let bytes = [0x34, 0x12, 0xFF, 0xFE, 0x61];
    assert_eq!(read_unit(&bytes, 0), 0x1234);
    assert_eq!(read_unit(&bytes, 2), 0xFEFF);
    assert_eq!(units_of_bytes(&bytes), vec![0x1234, 0xFEFF]);
}

#[test]
fn from_utf16le_lossy_like_std() {
    let mut odd = le_bytes("ab");
    odd.push(0x41);
    let cases: Vec<Vec<u8>> = vec![vec![], le_bytes("Fleet > hi"), le_bytes("😀"), odd, vec![0x00, 0xD8, 0x61, 0x00], vec![0x61]];
    for bytes in cases {
        let expected: Vec<char> = String::from_utf16_lossy(
            &bytes.chunks_exact(2).map(|c| u16::from_le_bytes([c[0], c[1]])).collect::<Vec<u16>>(),
        )
        .chars()
        .chain(if bytes.len() % 2 == 1 { Some(REPLACEMENT) } else { None })
        .collect();
        assert_eq!(from_utf16le_lossy(&bytes), expected, "{:?}", bytes);
    }
    let mut odd = le_bytes("ab");
    odd.push(0x41);
    assert_eq!(from_utf16le_lossy(&odd), vec!['a', 'b', '\u{FFFD}']);
}

#[test]
fn utf16_round_trip() {
    for s in ["", "Channel ID:      fleet_123", "Ünïcödé 😀 \u{10FFFF}"] {
        let cs: Vec<char> = s.chars().collect();
        let units = encode_text_utf16(&cs);
        assert_eq!(decode_units_lossy(&units), cs);
        let bytes: Vec<u8> = units.iter().flat_map(|u| u.to_le_bytes()).collect();
        assert_eq!(from_utf16le_lossy(&bytes), cs);
    }
}
