use gfcgi::text::{decimal_digits, split_list, trim};

#[test]
fn decimal_digits_of_numbers() {
    assert_eq!(decimal_digits(0), b"0".to_vec());
    assert_eq!(decimal_digits(7), b"7".to_vec());
    assert_eq!(decimal_digits(10), b"10".to_vec());
    assert_eq!(decimal_digits(200), b"200".to_vec());
    assert_eq!(decimal_digits(404), b"404".to_vec());
    assert_eq!(decimal_digits(65535), b"65535".to_vec());
    for n in [1u16, 9, 99, 100, 999, 1000, 12345, 60000] {
        assert_eq!(decimal_digits(n), n.to_string().into_bytes());
    }
}

#[test]
fn trim_removes_white_space_at_both_ends() {
    assert_eq!(trim("  a b \t\n"), "a b");
    assert_eq!(trim("abc"), "abc");
    assert_eq!(trim(""), "");
    assert_eq!(trim(" \t "), "");
    assert_eq!(trim("\u{a0}x\u{2003}"), "x");
    assert_eq!(trim(" é "), "é");
    for text in ["", " ", "a", " a", "a ", "  a  b  ", "\r\nx\r\n"] {
        assert_eq!(trim(text), text.trim());
    }
}

#[test]
fn split_list_splits_on_commas_and_trims() {
    assert_eq!(split_list("gzip, br"), vec!["gzip".to_string(), "br".to_string()]);
    assert_eq!(split_list("one"), vec!["one".to_string()]);
    assert_eq!(split_list(""), vec!["".to_string()]);
    assert_eq!(split_list(","), vec!["".to_string(), "".to_string()]);
    assert_eq!(
        split_list(" a ,b,, c d ,"),
        vec!["a".to_string(), "b".to_string(), "".to_string(), "c d".to_string(), "".to_string()]
    );
    for text in ["a,b", "a, b ,c", ",,", " x ", "é, ü"] {
        let expected: Vec<String> = text.split(',').map(|h| h.trim().to_string()).collect();
        assert_eq!(split_list(text), expected);
    }
}
