use curl_env::named_map::NamedMap;

#[test]
fn a_new_map_is_empty() {
    let map: NamedMap<u8> = NamedMap::new();
    assert_eq!(map.len(), 0);
    assert_eq!(map.get("a"), None);
}

#[test]
fn entries_keep_the_order_of_insertion() {
    let mut map: NamedMap<u8> = NamedMap::new();
    map.insert("zebra".to_string(), 1);
    map.insert("ape".to_string(), 2);
    map.insert("mole".to_string(), 3);
    assert_eq!(map.len(), 3);
    assert_eq!(map.name_at(0), "zebra");
    assert_eq!(map.name_at(1), "ape");
    assert_eq!(map.name_at(2), "mole");
    assert_eq!(map.value_at(0), &1);
    assert_eq!(map.value_at(1), &2);
    assert_eq!(map.value_at(2), &3);
}

#[test]
fn get_finds_the_value_under_a_name() {
    let mut map: NamedMap<u8> = NamedMap::new();
    map.insert("zebra".to_string(), 1);
    map.insert("ape".to_string(), 2);
    assert_eq!(map.get("zebra"), Some(&1));
    assert_eq!(map.get("ape"), Some(&2));
    assert_eq!(map.get("ap"), None);
    assert_eq!(map.get("apes"), None);
    assert_eq!(map.get(""), None);
}

#[test]
fn a_name_that_is_there_keeps_its_place_and_gets_the_new_value() {
    let mut map: NamedMap<u8> = NamedMap::new();
    map.insert("zebra".to_string(), 1);
    map.insert("ape".to_string(), 2);
    map.insert("zebra".to_string(), 9);
    assert_eq!(map.len(), 2);
    assert_eq!(map.name_at(0), "zebra");
    assert_eq!(map.value_at(0), &9);
    assert_eq!(map.get("zebra"), Some(&9));
    assert_eq!(map.get("ape"), Some(&2));
}

#[test]
fn many_names_are_all_found() {
    let mut map: NamedMap<usize> = NamedMap::new();
    for i in 0..200 {
        map.insert(format!("name{}", i), i * 7);
    }
    assert_eq!(map.len(), 200);
    for i in 0..200 {
        assert_eq!(map.get(&format!("name{}", i)), Some(&(i * 7)));
        assert_eq!(map.name_at(i), format!("name{}", i));
    }
    assert_eq!(map.get("name200"), None);
}
