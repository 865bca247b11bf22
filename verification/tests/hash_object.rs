use std::io::Read;
use messi::packfile::entry::PackfileEntry;
use messi::packfile::object_type::ObjectType;
use messi::hash_object::{
    get_file_object_path, get_tree_hash, hash_byte_array, hash_file_content, hash_string, store_file,
    store_string_to_file, store_tree_to_file,
};

#[test]
fn test_hash_string_without_type() {
    let content = "Hello World!";
    let hash = hash_string(content);
    assert_eq!(hash, "2ef7bde608ce5404e97d5f042f95f89f1c232871");
}

#[test]
fn test_hash_string_with_type() {
    let content = "blob 12\0Hello World!";
    let hash = hash_string(content);
    assert_eq!(hash, "c57eff55ebc0c54973903af5f72bac72762cf4f4");
}

#[test]
fn test_hash_file_content() {
    let hash = hash_file_content("Hello World!", "blob");
    assert_eq!(hash, "c57eff55ebc0c54973903af5f72bac72762cf4f4");
}

#[test]
fn test_store_file_hash() {
    let stored = store_file("Hello World!", "tests/hash_object");
    assert_eq!(stored.hash, "c57eff55ebc0c54973903af5f72bac72762cf4f4");
    assert_eq!(stored.dir, "tests/hash_object/objects/c5/");
    assert_eq!(stored.file, "tests/hash_object/objects/c5/7eff55ebc0c54973903af5f72bac72762cf4f4");
}

#[test]
fn stored_data_decompresses_to_the_object() {
    let stored = store_file("Hello World!", "g");
    let mut decoder = flate2::read::ZlibDecoder::new(&stored.data[..]);
    let mut decoded = String::new();
    decoder.read_to_string(&mut decoded).unwrap();
    assert_eq!(decoded, "blob 12\0Hello World!");
}

#[test]
fn object_path_of_a_file() {
    assert_eq!(
        get_file_object_path("Hello World!", ".mgit"),
        ".mgit/objects/c5/7eff55ebc0c54973903af5f72bac72762cf4f4"
    );
    assert_eq!(hash_byte_array(&b"Hello World!".to_vec()), "2ef7bde608ce5404e97d5f042f95f89f1c232871");
}

#[test]
fn tree_entries_are_sorted_by_name() {
    let blobs = vec![("100644".to_string(), "b.txt".to_string(), vec![1u8; 20])];
    let trees = vec![("40000".to_string(), "a".to_string(), vec![2u8; 20])];
    let swapped = get_tree_hash(trees.clone(), blobs.clone());
    let hash = get_tree_hash(blobs.clone(), trees.clone());
    assert_eq!(hash, swapped);
    let mut data = b"tree 61\0".to_vec();
    data.extend(b"40000 a\0");
    data.extend(vec![2u8; 20]);
    data.extend(b"100644 b.txt\0");
    data.extend(vec![1u8; 20]);
    assert_eq!(hash, hash_byte_array(&data));
    let stored = store_tree_to_file(blobs, trees, "g");
    assert_eq!(stored.hash, hash);
}

#[test]
fn stored_objects_read_back() {
    let stored = store_string_to_file("tree 1234\nparent x\n", "g", "commit");
    let entry = PackfileEntry::from_compressed(&stored.data).unwrap();
    assert_eq!(entry.obj_type, ObjectType::Commit);
    assert_eq!(entry.size, 19);
    assert_eq!(entry.content, b"tree 1234\nparent x\n".to_vec());
}
