use curl_env::text::{chars_of, join_lines, text_equal, text_less};

#[test]
fn chars_of_gives_the_characters_in_order() {
    assert_eq!(chars_of("a/{b}"), vec!['a', '/', '{', 'b', '}']);
    assert_eq!(chars_of(""), Vec::<char>::new());
    assert_eq!(chars_of("é$"), vec!['é', '$']);
}

#[test]
fn text_less_orders_by_code_point() {
    assert!(text_less("limit", "offset"));
    assert!(!text_less("offset", "limit"));
    assert!(!text_less("limit", "limit"));
    assert!(text_less("", "a"));
    assert!(!text_less("a", ""));
    assert!(!text_less("", ""));
    assert!(text_less("ab", "abc"));
    assert!(!text_less("abc", "ab"));
    assert!(text_less("Z", "a"));
    assert!(text_less("a", "é"));
    assert!(text_less("page_size", "page~"));
}

#[test]
fn text_less_agrees_with_the_order_of_strings() {
    let samples = ["", "a", "ab", "b", "B", "limit", "limiT", "offset", "é", "zz", "z", "_x", "-x"];
    for a in samples {
        for b in samples {
            assert_eq!(text_less(a, b), a < b);
            assert_eq!(text_equal(a, b), a == b);
        }
    }
}

#[test]
fn join_lines_puts_the_separator_between_neighbours() {
    assert_eq!(join_lines(&vec![], ", "), "");
    assert_eq!(join_lines(&vec!["one".to_string()], ", "), "one");
    assert_eq!(
        join_lines(&vec!["one".to_string(), "".to_string(), "three".to_string()], ", "),
        "one, , three"
    );
}
