use curl_env::document::{
    ComponentStore, Document, Location, Method, Operation, Parameter, PathItem, Reference,
};
use curl_env::named_map::NamedMap;

fn operation(name: &str) -> Operation {
    Operation {
        parameters: vec![Reference::Inline(Parameter::new(name.to_string(), Location::Query))],
        request_body: None,
    }
}

#[test]
fn methods_are_spelled_in_upper_case() {
    assert_eq!(Method::Get.upper(), "GET");
    assert_eq!(Method::Put.upper(), "PUT");
    assert_eq!(Method::Post.upper(), "POST");
    assert_eq!(Method::Delete.upper(), "DELETE");
    assert_eq!(Method::Options.upper(), "OPTIONS");
    assert_eq!(Method::Head.upper(), "HEAD");
    assert_eq!(Method::Patch.upper(), "PATCH");
    assert_eq!(Method::Trace.upper(), "TRACE");
}

#[test]
fn a_parameter_keeps_its_name_and_location() {
    let parameter = Parameter::new("limit".to_string(), Location::Header);
    assert_eq!(parameter.name, "limit");
    assert_eq!(parameter.location, Location::Header);
}

#[test]
fn a_new_path_has_no_operation() {
    assert!(PathItem::new().operations().is_empty());
}

#[test]
fn the_operations_of_a_path_come_in_the_order_of_the_methods() {
    let mut item = PathItem::new();
    item.patch = Some(operation("patch"));
    item.get = Some(operation("get"));
    item.delete = Some(operation("delete"));
    let found = item.operations();
    let seen: Vec<(Method, String)> = found
        .iter()
        .map(|(method, op)| match &op.parameters[0] {
            Reference::Inline(p) => (*method, p.name.clone()),
            Reference::Pointer(text) => (*method, text.clone()),
        })
        .collect();
    assert_eq!(
        seen,
        vec![
            (Method::Get, "get".to_string()),
            (Method::Delete, "delete".to_string()),
            (Method::Patch, "patch".to_string()),
        ]
    );
}

#[test]
fn the_operations_of_a_document_come_path_by_path() {
    let mut first = PathItem::new();
    first.post = Some(operation("a"));
    first.get = Some(operation("b"));
    let mut third = PathItem::new();
    third.put = Some(operation("c"));
    let mut paths = NamedMap::new();
    paths.insert("/one".to_string(), first);
    paths.insert("/two".to_string(), PathItem::new());
    paths.insert("/three".to_string(), third);
    let document = Document { paths, components: None };
    let entries = document.operations();
    let seen: Vec<(&str, Method)> = entries.iter().map(|e| (e.template, e.method)).collect();
    assert_eq!(
        seen,
        vec![("/one", Method::Get), ("/one", Method::Post), ("/three", Method::Put)]
    );
}

#[test]
fn a_new_document_and_a_new_store_are_empty() {
    let document = Document::new();
    assert_eq!(document.paths.len(), 0);
    assert!(document.components.is_none());
    assert!(document.operations().is_empty());
    let store = ComponentStore::new();
    assert_eq!(store.parameters.len(), 0);
    assert_eq!(store.request_bodies.len(), 0);
    assert_eq!(store.responses.len(), 0);
    assert_eq!(store.schemas.len(), 0);
    assert_eq!(store.examples.len(), 0);
}
