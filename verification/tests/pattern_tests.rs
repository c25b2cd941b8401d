use curl_env::pattern::{
    display_form, escape_colons, match_pattern, PathTemplateMalformed, END_ANCHOR,
    PLACEHOLDER_CLASS,
};

#[test]
fn the_display_form_drops_the_braces_and_keeps_the_names() {
    assert_eq!(display_form("/pets/{id}"), "/pets/id");
    assert_eq!(display_form("/a/{b}/c/{d}"), "/a/b/c/d");
    assert_eq!(display_form("/plain"), "/plain");
    assert_eq!(display_form(""), "");
    assert_eq!(display_form("{}"), "");
    assert_eq!(display_form("/pets/{id"), "/pets/id");
    assert_eq!(display_form("/pets/id}"), "/pets/id");
    assert_eq!(display_form("/{a{b}}"), "/ab");
    assert_eq!(display_form("/v1:beta/{id}"), "/v1:beta/id");
}

#[test]
fn a_placeholder_becomes_the_class_and_the_anchor_comes_last() {
    assert_eq!(PLACEHOLDER_CLASS, "[[:alnum:]_-]+");
    assert_eq!(END_ANCHOR, '$');
    assert_eq!(match_pattern("/items/{id}"), Ok("/items/[[:alnum:]_-]+$".to_string()));
    assert_eq!(
        match_pattern("/a/{b}/c/{d}"),
        Ok("/a/[[:alnum:]_-]+/c/[[:alnum:]_-]+$".to_string())
    );
    assert_eq!(
        match_pattern("{first}{second}"),
        Ok("[[:alnum:]_-]+[[:alnum:]_-]+$".to_string())
    );
    assert_eq!(match_pattern("/plain"), Ok("/plain$".to_string()));
    assert_eq!(match_pattern(""), Ok("$".to_string()));
    assert_eq!(match_pattern("/{}"), Ok("/[[:alnum:]_-]+$".to_string()));
    assert_eq!(
        match_pattern("/{a very long name with spaces}/x"),
        Ok("/[[:alnum:]_-]+/x$".to_string())
    );
}

#[test]
fn a_brace_outside_a_placeholder_makes_the_template_malformed() {
    let malformed = Err(PathTemplateMalformed {});
    assert_eq!(match_pattern("/pets/{id"), malformed);
    assert_eq!(match_pattern("/pets/id}"), malformed);
    assert_eq!(match_pattern("/pets/}id{"), malformed);
    assert_eq!(match_pattern("/{a{b}}"), malformed);
    assert_eq!(match_pattern("/{a}}"), malformed);
    assert_eq!(match_pattern("/{{a}"), malformed);
    assert_eq!(match_pattern("{"), malformed);
    assert_eq!(match_pattern("}"), malformed);
    assert_eq!(match_pattern("/a/{b}/c/{d"), malformed);
}

#[test]
fn the_pattern_of_items_matches_an_id_and_nothing_longer_or_shorter() {
    let pattern = match_pattern("/items/{id}").unwrap();
    let matcher = regex::Regex::new(&format!("^http://localhost:9000{}", pattern)).unwrap();
    assert!(matcher.is_match("http://localhost:9000/items/42"));
    assert!(matcher.is_match("http://localhost:9000/items/some-id_7"));
    assert!(!matcher.is_match("http://localhost:9000/items/42/extra"));
    assert!(!matcher.is_match("http://localhost:9000/items/"));
    assert!(!matcher.is_match("http://localhost:9000/items"));
    assert!(!matcher.is_match("http://localhost:9000/items/4.2"));
    let suffix = regex::Regex::new(&pattern).unwrap();
    assert!(suffix.is_match("/items/42"));
    assert!(!suffix.is_match("/items/42/extra"));
    assert!(!suffix.is_match("/items/"));
}

#[test]
fn each_colon_gets_a_backslash() {
    assert_eq!(escape_colons("'http://localhost:9000/a'"), "'http\\://localhost\\:9000/a'");
    assert_eq!(escape_colons("::"), "\\:\\:");
    assert_eq!(escape_colons("no colon"), "no colon");
    assert_eq!(escape_colons(""), "");
    assert_eq!(escape_colons("a\\:b"), "a\\\\:b");
}
