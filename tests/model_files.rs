use klgl::{get_value_from_map, to_posix_path, StringHashMap};

#[test]
fn posix_path_turns_backslashes() {
    assert_eq!(to_posix_path("models\\cube\\cube.mtl"), "models/cube/cube.mtl");
    assert_eq!(to_posix_path("already/posix.obj"), "already/posix.obj");
    assert_eq!(to_posix_path(""), "");
}

#[test]
fn value_found_in_map() {
    let mut map: StringHashMap<u32> = StringHashMap::new();
    map.insert("cube.obj".to_string(), 7);
    assert_eq!(*get_value_from_map(&map, "cube.obj").ok().expect("present"), 7);
}

#[test]
fn missing_value_names_the_key() {
    let map: StringHashMap<u32> = StringHashMap::new();
    match get_value_from_map(&map, "cube.mtl") {
        Ok(_) => panic!("the map is empty"),
        Err(e) => assert_eq!(e.name, "cube.mtl"),
    }
}
