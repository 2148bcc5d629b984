use probe_blocks::lines::slice_str;
use probe_blocks::lines::split_lines;
use probe_blocks::results::join_lines;
use probe_blocks::text::bytes_contain;
use probe_blocks::text::bytes_eq;
use probe_blocks::text::bytes_less;
use probe_blocks::text::bytes_occur_at;
use probe_blocks::text::bytes_start_with;
use probe_blocks::text::count_lines;
use probe_blocks::text::str_eq;

#[test]
fn equality_of_bytes_and_strings() {
    assert!(bytes_eq(b"abc", b"abc"));
    assert!(!bytes_eq(b"abc", b"abd"));
    assert!(!bytes_eq(b"abc", b"ab"));
    assert!(bytes_eq(b"", b""));
    assert!(str_eq("héllo", "héllo"));
    assert!(!str_eq("héllo", "hello"));
}

#[test]
fn substring_tests() {
    assert!(bytes_contain(b"line_comment", b"comment"));
    assert!(bytes_contain(b"comment", b"comment"));
    assert!(bytes_contain(b"abc", b""));
    assert!(bytes_contain(b"", b""));
    assert!(!bytes_contain(b"commen", b"comment"));
    assert!(!bytes_contain(b"", b"a"));
    assert!(bytes_occur_at(b"abcdef", b"cd", 2));
    assert!(!bytes_occur_at(b"abcdef", b"cd", 3));
    assert!(!bytes_occur_at(b"abcdef", b"ef", 5));
    assert!(bytes_start_with(b"test_name", b"test_"));
    assert!(!bytes_start_with(b"tes", b"test_"));
}

#[test]
fn string_order() {
    assert!(bytes_less(b"a", b"b"));
    assert!(bytes_less(b"ab", b"abc"));
    assert!(bytes_less(b"", b"a"));
    assert!(!bytes_less(b"abc", b"ab"));
    assert!(!bytes_less(b"abc", b"abc"));
    assert!(!bytes_less(b"b", b"abc"));
    assert_eq!(bytes_less(b"Zeta", b"alpha"), "Zeta" < "alpha");
}

#[test]
fn counting_lines() {
    assert_eq!(count_lines(b""), 0);
    assert_eq!(count_lines(b"a"), 1);
    assert_eq!(count_lines(b"a\n"), 1);
    assert_eq!(count_lines(b"a\nb"), 2);
    assert_eq!(count_lines(b"\n"), 1);
    assert_eq!(count_lines(b"\n\n"), 2);
    assert_eq!(count_lines(b"line 1\nline 2\nline 3\nline 4\nline 5\n"), 5);
    for text in ["", "a", "a\n", "a\nb", "\n", "\n\nx", "a\r\nb\r\n", "é\nü"] {
        assert_eq!(count_lines(text.as_bytes()), text.lines().count());
    }
}

#[test]
fn splitting_lines() {
    for text in [
        "",
        "a",
        "a\n",
        "a\nb",
        "\n",
        "\n\nx",
        "a\r\nb\r\n",
        "a\rb\n",
        "tail\r",
        "é\nüber\n\n日本語",
        "line 1\nline 2\nline 3\nline 4\nline 5\n",
    ] {
        let expected: Vec<String> = text.lines().map(|l| l.to_string()).collect();
        assert_eq!(split_lines(text), expected);
    }
}

#[test]
fn slicing_and_joining() {
    assert_eq!(slice_str("hello world", 6, 11), "world");
    assert_eq!(slice_str("hello", 0, 0), "");
    assert_eq!(slice_str("aéb", 1, 3), "é");
    let lines: Vec<String> = vec!["a".to_string(), "b".to_string(), "c".to_string()];
    assert_eq!(join_lines(&lines, 0, 3), "a\nb\nc");
    assert_eq!(join_lines(&lines, 1, 2), "b");
    assert_eq!(join_lines(&lines, 2, 2), "");
    assert_eq!(join_lines(&lines, 2, 1), "");
    assert_eq!(join_lines(&lines, 0, 4), "");
}
