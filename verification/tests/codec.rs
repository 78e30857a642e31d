use hexlify::DecodeError;
use hexlify::decode;
use hexlify::encode;
use hexlify::pair_to_hex;
use hexlify::to_hex_value;

#[test]
fn test_to_hex_value() {
    assert_eq!(to_hex_value('0' as u8).unwrap(), 0);
    assert_eq!(to_hex_value('9' as u8).unwrap(), 9);
    assert_eq!(to_hex_value('a' as u8).unwrap(), 10);
    assert_eq!(to_hex_value('f' as u8).unwrap(), 15);
    assert_eq!(to_hex_value('A' as u8).unwrap(), 10);
    assert_eq!(to_hex_value('F' as u8).unwrap(), 15);
}

#[test]
fn test_pair_to_hex() {
    assert_eq!(pair_to_hex(&['0' as u8, '0' as u8]).unwrap(), 0x00);
    assert_eq!(pair_to_hex(&['9' as u8, '9' as u8]).unwrap(), 0x99);
    assert_eq!(pair_to_hex(&['a' as u8, 'a' as u8]).unwrap(), 0xAA);
    assert_eq!(pair_to_hex(&['A' as u8, 'A' as u8]).unwrap(), 0xAA);
    assert_eq!(pair_to_hex(&['f' as u8, 'f' as u8]).unwrap(), 0xFF);
    assert_eq!(pair_to_hex(&['F' as u8, 'F' as u8]).unwrap(), 0xFF);

    assert!(pair_to_hex(&['0' as u8, '/' as u8]).is_none());
    assert!(pair_to_hex(&['0' as u8, ':' as u8]).is_none());

    assert!(pair_to_hex(&['0' as u8, '`' as u8]).is_none());
    assert!(pair_to_hex(&['0' as u8, 'g' as u8]).is_none());

    assert!(pair_to_hex(&['0' as u8, '@' as u8]).is_none());
    assert!(pair_to_hex(&['0' as u8, 'G' as u8]).is_none());
}

#[test]
fn test_decode() {
    let samples = vec![
        ("AA", vec![0xAA]),
        ("AABB", vec![0xAA, 0xBB]),
        ("AABBCCD", vec![0xAA, 0xBB, 0xCC]),
        ("AABBCCDD", vec![0xAA, 0xBB, 0xCC, 0xDD]),
        ("00gf", vec![0x00]),
        ("00g  ff", vec![0x00, 0xff]),
        ("---f-..,f aa b", vec![0xff, 0xaa]),
        ("²¹²³fa„“", vec![0xfa]),
        ("¹¸^afg01", vec![0xaf, 0x01]),
        ("´#*-_ff:;:;:1234", vec![0xff, 0x12, 0x34]),
        ("", vec![]),
        (
            "a1¹²}ff™± ¡¿⅛°±£™⅞`ff¿¡⅛°±£™01`",
            vec![0xa1, 0xff, 0xff, 0x01],
        ),
    ];

    for (sample, expected) in samples
        .into_iter()
        .map(|(s, e)| (s.as_bytes().to_vec(), e))
    {
        let got = {
            let mut tmp = Vec::new();
            let _ = decode(&sample, &mut tmp, true);
            tmp
        };

        assert_eq!(expected, got);
    }
}

#[test]
fn test_encode() {
    let samples = vec![
        (vec![], ""),
        (vec![0x00], "00"),
        (vec![0x00, 0x99, 0xAA, 0xFF], "0099AAFF"),
        (vec![0x00, 0x99, 0xAA, 0xFF, 0x00, 0x00], "0099AAFF0000"),
    ];

    for (sample, expected) in samples.into_iter() {
        let got = {
            let mut tmp = Vec::new();
            encode(&sample, &mut tmp);
            String::from_utf8(tmp).unwrap()
        };

        assert_eq!(expected, got);
    }
}

#[test]
fn test_round_trip() {
    let originals: Vec<Vec<u8>> = vec![
        vec![],
        vec![0x00],
        vec![0xFF],
        vec![0x00, 0x10, 0x7F, 0x80, 0x9A, 0xAB, 0xBC, 0xCD, 0xDE, 0xEF],
        (0..=255).collect(),
    ];
    for bytes in originals {
        let mut hex = Vec::new();
        encode(&bytes, &mut hex);
        for ignore_garbage in [false, true] {
            let mut back = Vec::new();
            let r = decode(&hex, &mut back, ignore_garbage);
            assert_eq!(r, Ok(()));
            assert_eq!(back, bytes);
        }
    }
}

#[test]
fn test_case_insensitive() {
    for text in ["aa", "AA", "aA", "Aa"] {
        let mut out = Vec::new();
        let r = decode(&text.as_bytes().to_vec(), &mut out, false);
        assert_eq!(r, Ok(()));
        assert_eq!(out, vec![0xAA]);
    }
}

#[test]
fn test_whitespace_transparent() {
    for ignore_garbage in [false, true] {
        let mut out = Vec::new();
        let r = decode(&"AA BB\nCC".as_bytes().to_vec(), &mut out, ignore_garbage);
        assert_eq!(r, Ok(()));
        assert_eq!(out, vec![0xAA, 0xBB, 0xCC]);
    }
}

#[test]
fn test_latin1_whitespace() {
    // Next-line (0x85) and no-break space (0xA0) read as whitespace
    // characters, so they are skipped even in strict mode.
    let mut out = Vec::new();
    let r = decode(&vec![0x09, 0x41, 0x85, 0x41, 0xA0, 0x20], &mut out, false);
    assert_eq!(r, Ok(()));
    assert_eq!(out, vec![0xAA]);
}

#[test]
fn test_garbage_skipped() {
    let mut out = Vec::new();
    let r = decode(&"00g  ff".as_bytes().to_vec(), &mut out, true);
    assert_eq!(r, Ok(()));
    assert_eq!(out, vec![0x00, 0xFF]);
}

#[test]
fn test_garbage_strict() {
    // The pair "00" completes before the garbage byte is read, so it has
    // already been written when the decode stops.
    let mut out = Vec::new();
    let r = decode(&"00g  ff".as_bytes().to_vec(), &mut out, false);
    assert_eq!(r, Err(DecodeError::NotHex));
    assert_eq!(out, vec![0x00]);
}

#[test]
fn test_garbage_strict_before_pair() {
    let mut out = Vec::new();
    let r = decode(&"0g00".as_bytes().to_vec(), &mut out, false);
    assert_eq!(r, Err(DecodeError::NotHex));
    assert_eq!(out, vec![]);
}

#[test]
fn test_odd_length_partial() {
    let mut out = Vec::new();
    let r = decode(&"AABBCCD".as_bytes().to_vec(), &mut out, true);
    assert_eq!(r, Err(DecodeError::OddLength));
    assert_eq!(out, vec![0xAA, 0xBB, 0xCC]);
}

#[test]
fn test_odd_length_strict() {
    let mut out = Vec::new();
    let r = decode(&"ABC".as_bytes().to_vec(), &mut out, false);
    assert_eq!(r, Err(DecodeError::OddLength));
    assert_eq!(out, vec![0xAB]);
}

#[test]
fn test_empty_input() {
    for ignore_garbage in [false, true] {
        let mut out = Vec::new();
        let r = decode(&Vec::new(), &mut out, ignore_garbage);
        assert_eq!(r, Ok(()));
        assert_eq!(out, vec![]);
    }
    let mut hex = Vec::new();
    encode(&Vec::new(), &mut hex);
    assert_eq!(hex, vec![]);
}

#[test]
fn test_encode_format() {
    let mut hex = Vec::new();
    encode(&vec![0x00, 0x99, 0xAA, 0xFF], &mut hex);
    assert_eq!(String::from_utf8(hex).unwrap(), "0099AAFF");
}

#[test]
fn test_decode_idempotent() {
    let input = "a1¹²}ff™± ¡¿⅛°±£™⅞`ff¿¡⅛°±£™01`".as_bytes().to_vec();
    let mut first = Vec::new();
    let r1 = decode(&input, &mut first, true);
    let mut second = Vec::new();
    let r2 = decode(&input, &mut second, true);
    assert_eq!(first, second);
    assert_eq!(r1, r2);
}

#[test]
fn test_decode_appends() {
    // Completed pairs are appended to whatever the destination already
    // holds; nothing before them is touched.
    let mut out = vec![0x01];
    let r = decode(&"ff".as_bytes().to_vec(), &mut out, false);
    assert_eq!(r, Ok(()));
    assert_eq!(out, vec![0x01, 0xFF]);
}
