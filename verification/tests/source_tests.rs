use curl_env::source::{choose_decoder, ends_with, EmptyInput, SourceFormat, JSON_SUFFIX};

#[test]
fn a_name_that_ends_in_json_asks_for_the_json_decoder() {
    assert_eq!(JSON_SUFFIX, ".json");
    assert_eq!(choose_decoder("petstore.json", "{}"), Ok(SourceFormat::Json));
    assert_eq!(choose_decoder(".json", "{}"), Ok(SourceFormat::Json));
    assert_eq!(choose_decoder("dir/api.v2.json", " "), Ok(SourceFormat::Json));
}

#[test]
fn every_other_name_asks_for_the_yaml_decoder() {
    assert_eq!(choose_decoder("petstore.yaml", "openapi: 3.0.0"), Ok(SourceFormat::Yaml));
    assert_eq!(choose_decoder("petstore.yml", "a"), Ok(SourceFormat::Yaml));
    assert_eq!(choose_decoder("petstore.json.bak", "a"), Ok(SourceFormat::Yaml));
    assert_eq!(choose_decoder("json", "a"), Ok(SourceFormat::Yaml));
    assert_eq!(choose_decoder("", "a"), Ok(SourceFormat::Yaml));
    assert_eq!(choose_decoder("petstore.JSON", "a"), Ok(SourceFormat::Yaml));
}

#[test]
fn an_empty_text_has_no_decoder() {
    assert_eq!(choose_decoder("petstore.json", ""), Err(EmptyInput {}));
    assert_eq!(choose_decoder("petstore.yaml", ""), Err(EmptyInput {}));
}

#[test]
fn ends_with_compares_the_tail() {
    assert!(ends_with("abc", "bc"));
    assert!(ends_with("abc", "abc"));
    assert!(ends_with("abc", ""));
    assert!(ends_with("", ""));
    assert!(!ends_with("abc", "ab"));
    assert!(!ends_with("bc", "abc"));
    assert!(!ends_with("", "a"));
}
