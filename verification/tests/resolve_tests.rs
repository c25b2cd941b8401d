use curl_env::document::{
    ComponentStore, Example, Location, Parameter, Reference, RequestBody, Response, Schema,
};
use curl_env::named_map::NamedMap;
use curl_env::resolve::{component_key, items, ComponentKind, ComponentLookup, ResolveError};

fn store() -> Option<ComponentStore> {
    let mut store = ComponentStore::new();
    store.parameters.insert("limit".to_string(), Parameter::new("limit".to_string(), Location::Query));
    store.parameters.insert("shared".to_string(), Parameter::new("shared".to_string(), Location::Header));
    store.request_bodies.insert("Pet".to_string(), RequestBody { content: NamedMap::new() });
    store.responses.insert("NotFound".to_string(), Response {});
    store.schemas.insert("Pet".to_string(), Schema {});
    store.examples.insert(
        "shared".to_string(),
        Example { value: Some(serde_json::Value::Bool(true)) },
    );
    Some(store)
}

fn unknown(kind: ComponentKind, key: &str) -> ResolveError {
    ResolveError::UnknownComponentKey { kind, key: key.to_string() }
}

#[test]
fn the_key_of_a_reference_follows_its_last_slash() {
    assert_eq!(component_key("#/components/parameters/limit"), "limit");
    assert_eq!(component_key("limit"), "limit");
    assert_eq!(component_key("#/components/parameters/"), "");
    assert_eq!(component_key("/"), "");
    assert_eq!(component_key(""), "");
    assert_eq!(component_key("a/b/c d"), "c d");
}

#[test]
fn a_value_given_in_place_resolves_to_itself() {
    let parameter = Parameter::new("q".to_string(), Location::Query);
    let reference = Reference::Inline(parameter.clone());
    assert_eq!(reference.item(&None), Ok(&parameter));
    assert_eq!(reference.item(&store()), Ok(&parameter));
}

#[test]
fn a_pointer_resolves_to_the_component_of_its_kind() {
    let components = store();
    let parameter: Reference<Parameter> = Reference::Pointer("#/components/parameters/limit".to_string());
    assert_eq!(
        parameter.item(&components),
        Ok(&Parameter::new("limit".to_string(), Location::Query))
    );
    let example: Reference<Example> = Reference::Pointer("#/components/examples/shared".to_string());
    assert_eq!(
        example.item(&components),
        Ok(&Example { value: Some(serde_json::Value::Bool(true)) })
    );
    let response: Reference<Response> = Reference::Pointer("#/components/responses/NotFound".to_string());
    assert_eq!(response.item(&components), Ok(&Response {}));
    let schema: Reference<Schema> = Reference::Pointer("#/components/schemas/Pet".to_string());
    assert_eq!(schema.item(&components), Ok(&Schema {}));
    let body: Reference<RequestBody> = Reference::Pointer("#/components/requestBodies/Pet".to_string());
    assert!(body.item(&components).is_ok());
}

#[test]
fn a_pointer_is_looked_up_only_among_the_components_of_its_kind() {
    let components = store();
    // "shared" names a parameter and an example; each kind finds its own.
    let parameter: Reference<Parameter> = Reference::Pointer("#/components/examples/shared".to_string());
    assert_eq!(
        parameter.item(&components),
        Ok(&Parameter::new("shared".to_string(), Location::Header))
    );
    // "NotFound" names a response only.
    let schema: Reference<Schema> = Reference::Pointer("#/components/responses/NotFound".to_string());
    assert_eq!(schema.item(&components), Err(unknown(ComponentKind::Schema, "NotFound")));
}

#[test]
fn a_pointer_without_components_fails_as_components_absent() {
    let parameter: Reference<Parameter> = Reference::Pointer("#/components/parameters/limit".to_string());
    assert_eq!(parameter.item(&None), Err(ResolveError::ComponentsAbsent));
    let example: Reference<Example> = Reference::Pointer("x".to_string());
    assert_eq!(example.item(&None), Err(ResolveError::ComponentsAbsent));
}

#[test]
fn a_pointer_to_a_missing_name_fails_with_kind_and_key() {
    let components = store();
    let parameter: Reference<Parameter> = Reference::Pointer("#/components/parameters/offset".to_string());
    assert_eq!(parameter.item(&components), Err(unknown(ComponentKind::Parameter, "offset")));
    let body: Reference<RequestBody> = Reference::Pointer("#/components/requestBodies/Dog".to_string());
    assert_eq!(
        body.item(&components).err(),
        Some(unknown(ComponentKind::RequestBody, "Dog"))
    );
    let response: Reference<Response> = Reference::Pointer("Missing".to_string());
    assert_eq!(response.item(&components), Err(unknown(ComponentKind::Response, "Missing")));
    let example: Reference<Example> = Reference::Pointer("#/components/examples/".to_string());
    assert_eq!(example.item(&components), Err(unknown(ComponentKind::Example, "")));
    let empty = Some(ComponentStore::new());
    let schema: Reference<Schema> = Reference::Pointer("#/components/schemas/Pet".to_string());
    assert_eq!(schema.item(&empty), Err(unknown(ComponentKind::Schema, "Pet")));
}

#[test]
fn each_kind_knows_its_mapping() {
    let components = store().unwrap();
    assert_eq!(Parameter::component_kind(), ComponentKind::Parameter);
    assert_eq!(RequestBody::component_kind(), ComponentKind::RequestBody);
    assert_eq!(Response::component_kind(), ComponentKind::Response);
    assert_eq!(Schema::component_kind(), ComponentKind::Schema);
    assert_eq!(Example::component_kind(), ComponentKind::Example);
    assert_eq!(Parameter::get_components(&components).len(), 2);
    assert_eq!(RequestBody::get_components(&components).len(), 1);
    assert_eq!(Response::get_components(&components).name_at(0), "NotFound");
    assert_eq!(Schema::get_components(&components).name_at(0), "Pet");
    assert_eq!(Example::get_components(&components).name_at(0), "shared");
}

#[test]
fn items_resolves_all_in_order_or_fails_as_the_first_failure() {
    let components = store();
    let q = Parameter::new("q".to_string(), Location::Query);
    let all = vec![
        Reference::Inline(q.clone()),
        Reference::Pointer("#/components/parameters/shared".to_string()),
        Reference::Pointer("#/components/parameters/limit".to_string()),
    ];
    assert_eq!(
        items(&all, &components),
        Ok(vec![
            &q,
            &Parameter::new("shared".to_string(), Location::Header),
            &Parameter::new("limit".to_string(), Location::Query),
        ])
    );
    let failing: Vec<Reference<Parameter>> = vec![
        Reference::Inline(q.clone()),
        Reference::Pointer("#/components/parameters/first".to_string()),
        Reference::Pointer("#/components/parameters/second".to_string()),
    ];
    assert_eq!(items(&failing, &components), Err(unknown(ComponentKind::Parameter, "first")));
    assert_eq!(items(&failing, &None), Err(ResolveError::ComponentsAbsent));
    let none: Vec<Reference<Parameter>> = vec![];
    assert_eq!(items(&none, &None), Ok(vec![]));
}
