use vhs_gui::encoding::{is_utf8, not_found};
use vhs_gui::text::{decimal, first_line, is_whitespace, padded, split, split_once, trim};

#[test]
fn whitespace_is_that_of_unicode() {
    for n in 0..=0x10FFFFu32 {
        if let Some(c) = char::from_u32(n) {
            assert_eq!(is_whitespace(c), c.is_whitespace(), "{n:x}");
        }
    }
}

const SAMPLES: [&str; 14] = [
    "", " ", "   ", "a", " a", "a ", "\t a b \n", "\u{a0}x\u{3000}", "\u{200b}x", "a:b:c", ":", "::", "\r\nx", "é:ü\n \u{2028}",
];

#[test]
fn trimming_is_that_of_the_standard_library() {
    for s in SAMPLES {
        assert_eq!(trim(s), s.trim());
        assert_eq!(trim(trim(s)), trim(s));
    }
}

#[test]
fn splitting_is_that_of_the_standard_library() {
    for s in SAMPLES {
        for c in [':', '/', 'é', ' '] {
            assert_eq!(split_once(s, c), s.split_once(c));
            assert_eq!(split(s, c), s.split(c).collect::<Vec<&str>>());
        }
    }
}

#[test]
fn trimmed_first_lines_are_those_of_the_standard_library() {
    for s in ["", "\n", "\r\n", "a", "a\n", "a\r\nb", "\nb", " a \n b", "a\rb\nc", "a\r"] {
        assert_eq!(trim(first_line(s)), s.lines().next().unwrap_or("").trim());
    }
}

#[test]
fn numbers_are_written_in_decimal() {
    for n in [0, 1, 9, 10, 59, 60, 100, 12345, u64::MAX as u128, u128::MAX] {
        assert_eq!(decimal(n), n.to_string());
        assert_eq!(padded(n, 2), format!("{n:02}"));
        assert_eq!(padded(n, 5), format!("{n:05}"));
    }
}

#[test]
fn utf8_is_told_as_the_standard_library_tells_it() {
    let interesting = [
        0x00u8, 0x41, 0x7f, 0x80, 0x8f, 0x90, 0x9f, 0xa0, 0xbf, 0xc0, 0xc1, 0xc2, 0xdf, 0xe0, 0xe1, 0xec, 0xed, 0xee, 0xef, 0xf0, 0xf1,
        0xf3, 0xf4, 0xf5, 0xf7, 0xf8, 0xff,
    ];
    let mut bytes: Vec<u8> = Vec::new();
    assert!(is_utf8(&bytes));
    for a in interesting {
        for b in interesting {
            for c in interesting {
                for d in interesting {
                    bytes.clear();
                    bytes.extend_from_slice(&[a, b, c, d]);
                    for n in 1..=4 {
                        assert_eq!(is_utf8(&bytes[..n]), std::str::from_utf8(&bytes[..n]).is_ok(), "{:x?}", &bytes[..n]);
                    }
                }
            }
        }
    }
}

#[test]
fn what_is_missing_is_named() {
    assert_eq!(not_found("sox", "/usr/bin/sox"), "sox not found: /usr/bin/sox");
}
