use net_uio::maps::{parse_hex_u64, parse_maps_range};

#[test]
fn hex_digits() {
    assert_eq!(parse_hex_u64(b"0"), Some(0));
    assert_eq!(parse_hex_u64(b"7f"), Some(0x7f));
    assert_eq!(parse_hex_u64(b"FF"), Some(0xff));
    assert_eq!(parse_hex_u64(b"55d4c3a00000"), Some(0x55d4_c3a0_0000));
    assert_eq!(parse_hex_u64(b"ffffffffffffffff"), Some(u64::MAX));
    assert_eq!(parse_hex_u64(b"0000000000000000000001"), Some(1));
}

#[test]
fn hex_sign_and_errors() {
    assert_eq!(parse_hex_u64(b"+ff"), Some(0xff));
    assert_eq!(parse_hex_u64(b"+"), None);
    assert_eq!(parse_hex_u64(b""), None);
    assert_eq!(parse_hex_u64(b"-1"), None);
    assert_eq!(parse_hex_u64(b"-"), None);
    assert_eq!(parse_hex_u64(b"xyz"), None);
    assert_eq!(parse_hex_u64(b"12g"), None);
    assert_eq!(parse_hex_u64(b"++1"), None);
    assert_eq!(parse_hex_u64(b"10000000000000000"), None);
    assert_eq!(parse_hex_u64(b"1 "), None);
}

#[test]
fn hex_agrees_with_from_str_radix() {
    let samples = [
        "", "+", "-", "0", "+0", "-0", "a", "G", "ffffffffffffffff", "10000000000000000",
        "fffffffffffffffff0", "12345678", "DeadBeef", " 1", "1\n", "+-1", "0x10", "7fffffffffffffff",
    ];
    for s in samples {
        assert_eq!(parse_hex_u64(s.as_bytes()), u64::from_str_radix(s, 16).ok(), "{:?}", s);
    }
}

#[test]
fn maps_line_range() {
    let line = "55d4c3a00000-55d4c3a21000 r--p 00000000 08:01 1234 /usr/bin/physmap\n";
    assert_eq!(parse_maps_range(line.as_bytes()), Some((0x55d4_c3a0_0000, 0x55d4_c3a2_1000)));
    let anon = "7f0000000000-7f0000001000 rw-p 00000000 00:00 0 \n";
    assert_eq!(parse_maps_range(anon.as_bytes()), Some((0x7f00_0000_0000, 0x7f00_0000_1000)));
}

#[test]
fn maps_line_edge_cases() {
    assert_eq!(parse_maps_range(b"1-2-3 rest"), Some((1, 2)));
    assert_eq!(parse_maps_range(b"abc rest"), None);
    assert_eq!(parse_maps_range(b"1-2\n"), None);
    assert_eq!(parse_maps_range(b"1-2"), Some((1, 2)));
    assert_eq!(parse_maps_range(b"-2 x"), None);
    assert_eq!(parse_maps_range(b"1- x"), None);
    assert_eq!(parse_maps_range(b""), None);
    assert_eq!(parse_maps_range(b" 1-2"), None);
}
