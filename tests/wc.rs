use regex_vm::wc::{count, format_field, FileInfo};

#[test]
fn test_count() {
    let text = "I don't want the world. I just want your half.\r\n";
    let info = count(text);

    let expected = FileInfo {
        num_lines: 1,
        num_words: 10,
        num_chars: 48,
        num_bytes: 48,
    };

    assert_eq!(info, expected)
}

#[test]
fn test_format_field() {
    assert_eq!(format_field(1, false), "");
    assert_eq!(format_field(3, true), "       3");
    assert_eq!(format_field(10, true), "      10");
}

#[test]
fn format_field_wide_values() {
    assert_eq!(format_field(0, true), "       0");
    assert_eq!(format_field(123456789, true), "123456789");
    assert_eq!(format_field(usize::MAX, true), usize::MAX.to_string());
}

#[test]
fn count_edge_cases() {
    assert_eq!(count(""), FileInfo { num_lines: 0, num_words: 0, num_bytes: 0, num_chars: 0 });
    assert_eq!(count("a b"), FileInfo { num_lines: 1, num_words: 2, num_bytes: 3, num_chars: 3 });
    assert_eq!(count("\n\n"), FileInfo { num_lines: 2, num_words: 0, num_bytes: 2, num_chars: 2 });
    assert_eq!(
        count("é x\u{3000}y\n z"),
        FileInfo { num_lines: 2, num_words: 4, num_bytes: 11, num_chars: 8 }
    );
}
