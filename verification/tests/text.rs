//! Text in and out.

use powercycling::text::{
    cut_at, dec_text, join, put_hex4, put_padded, put_right_aligned, read_number, same_lowered,
    split_lines, split_words, starts_with, text_less, trim,
};

#[test]
fn numbers_read_as_the_standard_library_reads_them() {
    for s in ["0", "7", "+7", "255", "256", "", "+", "-1", "0x1", "1 ", "007", "99999999999"] {
        assert_eq!(
            read_number(s, 10, 255),
            s.parse::<u8>().ok().map(u32::from),
            "{s}"
        );
    }
    for s in ["0483", "374e", "FFFF", "10000", "+ab", "g", ""] {
        assert_eq!(
            read_number(s, 16, 65535),
            u16::from_str_radix(s, 16).ok().map(u32::from),
            "{s}"
        );
    }
}

#[test]
fn decimal_reads_back() {
    for n in [0u32, 9, 10, 99, 100, 255] {
        assert_eq!(read_number(&dec_text(u64::from(n)), 10, 255), Some(n));
    }
    assert_eq!(dec_text(u64::MAX), u64::MAX.to_string());
}

#[test]
fn columns_are_counted_in_characters() {
    let mut s = String::new();
    put_padded(&mut s, "äb", 4);
    put_right_aligned(&mut s, "7", 3);
    put_padded(&mut s, "longer", 2);
    assert_eq!(s, format!("{:<4}{:>3}{:<2}", "äb", "7", "longer"));
    let mut s = String::new();
    put_hex4(&mut s, 0x0bda);
    assert_eq!(s, "0bda");
}

#[test]
fn words_and_lines_split_as_the_standard_library_splits_them() {
    for s in ["", " ", "a b", "  a\u{a0}b\u{2003}c ", "\t\n", "x"] {
        assert_eq!(split_words(s), s.split_whitespace().collect::<Vec<_>>());
        assert_eq!(trim(s), s.trim());
    }
    for s in ["", "\n", "a\nb", "a\r\nb\r", "\n\n", "a\n"] {
        assert_eq!(split_lines(s), s.lines().collect::<Vec<_>>());
    }
    assert_eq!(cut_at("ab#c#", '#'), "ab");
    assert_eq!(cut_at("abc", '#'), "abc");
    assert_eq!(
        join(&vec!["a".to_string(), "b".to_string()], ", "),
        "a, b"
    );
}

#[test]
fn texts_compare_as_the_standard_library_compares_them() {
    let all = ["", "2-1", "2-1.10", "2-1.2", "usb2", "ä", "a"];
    for a in all {
        for b in all {
            assert_eq!(text_less(a, b), a < b);
            assert_eq!(starts_with(a, b), a.starts_with(b));
        }
    }
    assert!(same_lowered("QuIt", "quit"));
    assert!(!same_lowered("quit", "QUIT"));
    assert!(!same_lowered("qui", "quit"));
    assert!(same_lowered("Ä", "Ä"));
}
