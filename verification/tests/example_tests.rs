use curl_env::document::{ComponentStore, Example, MediaType, Reference, RequestBody};
use curl_env::example::{
    escape_example, media_type_examples, request_body_examples, INLINE_LABEL, JSON_MEDIA_TYPE,
};
use curl_env::json::canonical_text;
use curl_env::named_map::NamedMap;

fn json(text: &str) -> serde_json::Value {
    serde_json::from_str(text).unwrap()
}

fn media(example: Option<serde_json::Value>, named: Vec<(&str, Reference<Example>)>) -> MediaType {
    let mut examples = NamedMap::new();
    for (name, reference) in named {
        examples.insert(name.to_string(), reference);
    }
    MediaType { example, examples }
}

fn body(media_type: &str, content: MediaType) -> Option<Reference<RequestBody>> {
    let mut map = NamedMap::new();
    map.insert(media_type.to_string(), content);
    Some(Reference::Inline(RequestBody { content: map }))
}

fn value(text: &str) -> Reference<Example> {
    Reference::Inline(Example { value: Some(json(text)) })
}

fn pair(label: &str, text: &str) -> (String, String) {
    (label.to_string(), text.to_string())
}

/// Reads an escaped text back: a backslash before a quote, a colon or a
/// dollar sign goes, and a backslash with the letter n is a line break.
fn read_back(text: &str) -> String {
    let chars: Vec<char> = text.chars().collect();
    let mut out = String::new();
    let mut i = 0;
    while i < chars.len() {
        if chars[i] == '\\' && i + 1 < chars.len() && matches!(chars[i + 1], '\'' | ':' | '$' | 'n') {
            out.push(if chars[i + 1] == 'n' { '\n' } else { chars[i + 1] });
            i += 2;
        } else {
            out.push(chars[i]);
            i += 1;
        }
    }
    out
}

#[test]
fn the_four_characters_are_escaped() {
    assert_eq!(escape_example("'"), "\\'");
    assert_eq!(escape_example(":"), "\\:");
    assert_eq!(escape_example("$"), "\\$");
    assert_eq!(escape_example("\n"), "\\n");
    assert_eq!(escape_example("plain \"text\" {1,2}"), "plain \"text\" {1,2}");
    assert_eq!(escape_example(""), "");
    assert_eq!(
        escape_example("{\"it's\":\"$5\",\"a\":1}\nend"),
        "{\"it\\'s\"\\:\"\\$5\",\"a\"\\:1}\\nend"
    );
    assert_eq!(escape_example("\\"), "\\");
    assert_eq!(escape_example("$':\n"), "\\$\\'\\:\\n");
}

#[test]
fn escaping_is_the_same_as_replacing_one_character_after_the_other() {
    let samples = ["it's: $HOME\n", "''::$$\n\n", "{\"a\":\"b\"}", "\\'", "n\\:", ""];
    for text in samples {
        let one_by_one = text
            .replace('\'', "\\'")
            .replace(':', "\\:")
            .replace('$', "\\$")
            .replace('\n', "\\n");
        assert_eq!(escape_example(text), one_by_one);
        let other_order = text
            .replace('\n', "\\n")
            .replace('$', "\\$")
            .replace(':', "\\:")
            .replace('\'', "\\'");
        assert_eq!(escape_example(text), other_order);
    }
}

#[test]
fn an_escaped_text_reads_back_as_it_was() {
    let text = "{\"quote\":\"it's\",\"price\":\"$5\",\"lines\":\"one\ntwo\"}";
    let escaped = escape_example(text);
    assert_eq!(
        escaped,
        "{\"quote\"\\:\"it\\'s\",\"price\"\\:\"\\$5\",\"lines\"\\:\"one\\ntwo\"}"
    );
    assert_eq!(read_back(&escaped), text);
    for sample in ["", "'", "':$\n", "a\\b", "\\'", "\\:", "\\$", "\\\n", "\\", "n\\"] {
        assert_eq!(read_back(&escape_example(sample)), sample);
    }
}

#[test]
fn a_backslash_before_the_letter_n_does_not_read_back() {
    let text = "a\\nb";
    assert_eq!(escape_example(text), "a\\nb");
    assert_eq!(read_back(&escape_example(text)), "a\nb");
    assert_ne!(read_back(&escape_example(text)), text);
}

#[test]
fn canonical_text_is_compact_json() {
    assert_eq!(canonical_text(&json("{ \"a\" : [ 1 , 2.5 , null , true ] }")), Some("{\"a\":[1,2.5,null,true]}".to_string()));
    assert_eq!(canonical_text(&json("\"line\\nbreak\"")), Some("\"line\\nbreak\"".to_string()));
    assert_eq!(canonical_text(&serde_json::Value::Null), Some("null".to_string()));
    assert_eq!(canonical_text(&serde_json::Value::String("it's".to_string())), Some("\"it's\"".to_string()));
}

#[test]
fn the_constants_name_the_media_type_and_the_label() {
    assert_eq!(JSON_MEDIA_TYPE, "application/json");
    assert_eq!(INLINE_LABEL, "Request Body Example");
}

#[test]
fn no_body_gives_no_example() {
    assert!(request_body_examples(&None, &None).is_empty());
    assert!(request_body_examples(&None, &Some(ComponentStore::new())).is_empty());
}

#[test]
fn a_body_without_json_content_gives_no_example() {
    let xml = body("application/xml", media(Some(json("1")), vec![]));
    assert!(request_body_examples(&xml, &None).is_empty());
    let longer = body("application/json; charset=utf-8", media(Some(json("1")), vec![]));
    assert!(request_body_examples(&longer, &None).is_empty());
    let empty = Some(Reference::Inline(RequestBody { content: NamedMap::new() }));
    assert!(request_body_examples(&empty, &None).is_empty());
}

#[test]
fn an_example_given_in_place_has_the_fixed_label() {
    let content = media(Some(json("{\"name\": \"it's\", \"cost\": \"$5\"}")), vec![]);
    let found = request_body_examples(&body("application/json", content), &None);
    assert_eq!(
        found,
        vec![pair("Request Body Example", "{\"cost\"\\:\"\\$5\",\"name\"\\:\"it\\'s\"}")]
    );
}

#[test]
fn an_example_given_in_place_comes_before_the_named_ones() {
    let content = media(Some(json("[1]")), vec![("other", value("[2]"))]);
    assert_eq!(
        media_type_examples(&content, &None),
        vec![pair("Request Body Example", "[1]")]
    );
}

#[test]
fn named_examples_come_in_the_order_of_the_document() {
    let content = media(
        None,
        vec![("zebra", value("{\"n\": 1}")), ("ape", value("\"a:b\"")), ("mole", value("[]"))],
    );
    assert_eq!(
        media_type_examples(&content, &None),
        vec![pair("zebra", "{\"n\"\\:1}"), pair("ape", "\"a\\:b\""), pair("mole", "[]")]
    );
}

#[test]
fn an_example_that_cannot_be_resolved_does_not_suppress_the_others() {
    let mut store = ComponentStore::new();
    store.examples.insert("known".to_string(), Example { value: Some(json("{\"k\": 1}")) });
    store.examples.insert("blank".to_string(), Example { value: None });
    let components = Some(store);
    let content = media(
        None,
        vec![
            ("first", value("1")),
            ("missing", Reference::Pointer("#/components/examples/missing".to_string())),
            ("blank", Reference::Pointer("#/components/examples/blank".to_string())),
            ("nothing", Reference::Inline(Example { value: None })),
            ("known", Reference::Pointer("#/components/examples/known".to_string())),
            ("last", value("2")),
        ],
    );
    assert_eq!(
        media_type_examples(&content, &components),
        vec![pair("first", "1"), pair("known", "{\"k\"\\:1}"), pair("last", "2")]
    );
    let without = media(
        None,
        vec![
            ("first", value("1")),
            ("known", Reference::Pointer("#/components/examples/known".to_string())),
            ("last", value("2")),
        ],
    );
    assert_eq!(
        media_type_examples(&content, &components),
        media_type_examples(&without, &components)
    );
    // Without components the pointers fail, and the run goes on.
    assert_eq!(
        media_type_examples(&content, &None),
        vec![pair("first", "1"), pair("last", "2")]
    );
}

#[test]
fn a_shared_body_is_resolved_first() {
    let mut store = ComponentStore::new();
    let mut content = NamedMap::new();
    content.insert("application/json".to_string(), media(Some(json("{\"id\": 7}")), vec![]));
    store.request_bodies.insert("Pet".to_string(), RequestBody { content });
    let components = Some(store);
    let shared = Some(Reference::Pointer("#/components/requestBodies/Pet".to_string()));
    assert_eq!(
        request_body_examples(&shared, &components),
        vec![pair("Request Body Example", "{\"id\"\\:7}")]
    );
    let missing = Some(Reference::Pointer("#/components/requestBodies/Dog".to_string()));
    assert!(request_body_examples(&missing, &components).is_empty());
    assert!(request_body_examples(&shared, &None).is_empty());
}
