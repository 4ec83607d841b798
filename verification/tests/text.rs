use rustscan::address::notation::hex_text;
use rustscan::text::{
    char_is_space, chars_of, decimal_text, find_char, read_u16, stands_at, trim_bounds,
};

#[test]
fn white_space_is_what_trimming_takes_away() {
    let mut count = 0;
    for code in 0..=0x10ffffu32 {
        if let Some(c) = char::from_u32(code) {
            assert_eq!(char_is_space(c), c.is_whitespace(), "U+{:04X}", code);
            if c.is_whitespace() {
                count += 1;
            }
        }
    }
    assert_eq!(count, 25);
}

#[test]
fn every_number_is_written_and_read_back() {
    for n in 0..=u16::MAX {
        let text = decimal_text(n);
        assert_eq!(text, n.to_string());
        let chars = chars_of(&text);
        assert_eq!(read_u16(&chars, 0, chars.len()), Some(n));
        assert_eq!(hex_text(n), format!("{:x}", n));
    }
}

#[test]
fn numbers_are_read_as_the_standard_library_reads_them() {
    let samples = [
        "", "+", "-", "0", "+0", "-0", "00", "+00", "007", "65535", "65536", "065535", "99999",
        "100000", "000000000000000000000000000065535", "000000000000000000000000000065536",
        "18446744073709551616", "4294967296", "1a", "a1", " 1", "1 ", "1_000", "++1", "+-1",
        "1+", "٣", "１２", "1.0", "0x10", "6553", "655350",
    ];
    for s in samples {
        let chars = chars_of(s);
        assert_eq!(chars, s.chars().collect::<Vec<char>>());
        assert_eq!(read_u16(&chars, 0, chars.len()), s.parse::<u16>().ok(), "{:?}", s);
    }
}

#[test]
fn pieces_of_a_text_are_found_by_position() {
    let chars = chars_of("  ab, c\u{2003}");
    assert_eq!(chars.len(), 8);
    assert_eq!(find_char(&chars, 0, 8, ','), 4);
    assert_eq!(find_char(&chars, 5, 8, ','), 8);
    assert_eq!(find_char(&chars, 0, 4, ','), 4);
    assert_eq!(find_char(&chars, 3, 3, 'b'), 3);
    assert_eq!(trim_bounds(&chars, 0, 4), (2, 4));
    assert_eq!(trim_bounds(&chars, 5, 8), (6, 7));
    assert_eq!(trim_bounds(&chars, 0, 2), (2, 2));
    assert_eq!(trim_bounds(&chars, 1, 1), (1, 1));
    assert!(stands_at(&chars, &chars_of("ab"), 2));
    assert!(!stands_at(&chars, &chars_of("ab"), 3));
    assert!(stands_at(&chars, &chars_of(""), 8));
    assert_eq!(read_u16(&chars_of("x12y"), 1, 3), Some(12));
}
