use curl_env::weburl::{join_text, without_query, BaseUrlJoinFailed};

fn parse(text: &str) -> url::Url {
    url::Url::parse(text).unwrap()
}

#[test]
fn a_path_is_joined_onto_the_base() {
    let base = parse("http://localhost:9000");
    assert_eq!(join_text(&base, "/pets/id"), Ok("http://localhost:9000/pets/id".to_string()));
    assert_eq!(
        join_text(&base, "/pets/[[:alnum:]_-]+$"),
        Ok("http://localhost:9000/pets/[[:alnum:]_-]+$".to_string())
    );
    let deeper = parse("https://example.com/api/v2/");
    assert_eq!(join_text(&deeper, "/pets"), Ok("https://example.com/pets".to_string()));
    assert_eq!(join_text(&deeper, "pets"), Ok("https://example.com/api/v2/pets".to_string()));
    assert_eq!(join_text(&deeper, ""), Ok("https://example.com/api/v2/".to_string()));
}

#[test]
fn what_does_not_join_fails() {
    let base = parse("http://localhost:9000");
    assert_eq!(join_text(&base, "//["), Err(BaseUrlJoinFailed {}));
    let opaque = parse("mailto:someone@example.com");
    assert_eq!(join_text(&opaque, "/pets"), Err(BaseUrlJoinFailed {}));
}

#[test]
fn the_query_is_taken_off() {
    assert_eq!(
        without_query(parse("http://localhost:9000/api?token=abc&x=1")).as_str(),
        "http://localhost:9000/api"
    );
    assert_eq!(
        without_query(parse("http://localhost:9000/api?token=abc#part")).as_str(),
        "http://localhost:9000/api#part"
    );
    assert_eq!(without_query(parse("http://localhost:9000/api")).as_str(), "http://localhost:9000/api");
}
