use curl_env::document::{ComponentStore, Location, Parameter, Reference};
use curl_env::parameters::{parameter_map, query_names};
use curl_env::resolve::{ComponentKind, ResolveError};

fn inline(name: &str, location: Location) -> Reference<Parameter> {
    Reference::Inline(Parameter::new(name.to_string(), location))
}

fn names(found: &Vec<&Parameter>) -> Vec<(String, Location)> {
    found.iter().map(|p| (p.name.clone(), p.location)).collect()
}

#[test]
fn limit_and_offset_in_either_order_give_the_same_options() {
    let forward = vec![inline("limit", Location::Query), inline("offset", Location::Query)];
    let backward = vec![inline("offset", Location::Query), inline("limit", Location::Query)];
    let first = parameter_map(&forward, &None).unwrap();
    let second = parameter_map(&backward, &None).unwrap();
    assert_eq!(first, second);
    assert_eq!(query_names(&first), vec!["limit".to_string(), "offset".to_string()]);
    assert_eq!(query_names(&second), vec!["limit".to_string(), "offset".to_string()]);
}

#[test]
fn the_index_ascends_by_name() {
    let declared = vec![
        inline("tags", Location::Query),
        inline("Accept", Location::Header),
        inline("page", Location::Query),
        inline("id", Location::Path),
        inline("pageSize", Location::Query),
        inline("_debug", Location::Cookie),
    ];
    let found = parameter_map(&declared, &None).unwrap();
    assert_eq!(
        names(&found),
        vec![
            ("Accept".to_string(), Location::Header),
            ("_debug".to_string(), Location::Cookie),
            ("id".to_string(), Location::Path),
            ("page".to_string(), Location::Query),
            ("pageSize".to_string(), Location::Query),
            ("tags".to_string(), Location::Query),
        ]
    );
    assert_eq!(
        query_names(&found),
        vec!["page".to_string(), "pageSize".to_string(), "tags".to_string()]
    );
}

#[test]
fn of_two_parameters_with_one_name_the_first_stays() {
    let declared = vec![
        inline("limit", Location::Query),
        inline("limit", Location::Header),
        inline("id", Location::Header),
        inline("id", Location::Query),
        inline("limit", Location::Cookie),
    ];
    let found = parameter_map(&declared, &None).unwrap();
    assert_eq!(
        names(&found),
        vec![("id".to_string(), Location::Header), ("limit".to_string(), Location::Query)]
    );
    assert_eq!(query_names(&found), vec!["limit".to_string()]);
}

#[test]
fn pointers_are_resolved_before_indexing() {
    let mut store = ComponentStore::new();
    store.parameters.insert("Limit".to_string(), Parameter::new("limit".to_string(), Location::Query));
    store.parameters.insert("Key".to_string(), Parameter::new("api_key".to_string(), Location::Header));
    let components = Some(store);
    let declared = vec![
        Reference::Pointer("#/components/parameters/Limit".to_string()),
        inline("limit", Location::Header),
        Reference::Pointer("#/components/parameters/Key".to_string()),
    ];
    let found = parameter_map(&declared, &components).unwrap();
    assert_eq!(
        names(&found),
        vec![("api_key".to_string(), Location::Header), ("limit".to_string(), Location::Query)]
    );
}

#[test]
fn one_failing_reference_leaves_no_index() {
    let components = Some(ComponentStore::new());
    let declared = vec![
        inline("limit", Location::Query),
        Reference::Pointer("#/components/parameters/offset".to_string()),
        Reference::Pointer("#/components/parameters/other".to_string()),
    ];
    assert_eq!(
        parameter_map(&declared, &components),
        Err(ResolveError::UnknownComponentKey {
            kind: ComponentKind::Parameter,
            key: "offset".to_string()
        })
    );
    assert_eq!(parameter_map(&declared, &None), Err(ResolveError::ComponentsAbsent));
}

#[test]
fn no_parameters_give_an_empty_index() {
    let found = parameter_map(&[], &None).unwrap();
    assert!(found.is_empty());
    assert!(query_names(&found).is_empty());
}
