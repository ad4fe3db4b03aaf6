use quantaradar::news::parse_block_number;

fn std_reading(s: &str) -> Option<u64> {
    u64::from_str_radix(s.trim_start_matches("0x"), 16).ok()
}

#[test]
fn block_numbers_read_as_std_reads_them() {
    let cases = [
        "0x0", "0x1f", "0x0x1f", "1f", "0x", "", "+", "+0x1", "0x+1f", "+ff", "0xFFFFFFFFFFFFFFFF",
        "0x10000000000000000", "0x00000000000000000001", "0xg1", "0x-1", "0x1 ", "x1", "0X1f", "0xé",
        "ffffffffffffffff", "0x12a05f200",
    ];
    for c in cases {
        assert_eq!(parse_block_number(c), std_reading(c), "{:?}", c);
    }
    assert_eq!(parse_block_number("0x12a05f200"), Some(5_000_000_000));
    assert_eq!(parse_block_number("0x0x0x10"), Some(16));
}
