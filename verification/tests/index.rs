use messi::index::{Index, IndexError};

#[test]
fn test_map_empty() {
    let index = Index::default();
    assert!(index.is_empty())
}

#[test]
fn test_map_keys() {
    let index_content = "123456789 a.txt\n12388798 b.txt\n88321767 c.txt\n123817237 d.txt\n";
    let mut index = Index::default();
    index.load_content(index_content);

    assert!(index.contains("a.txt"));
    assert!(index.contains("b.txt"));
    assert!(index.contains("c.txt"));
    assert!(index.contains("d.txt"));
}

#[test]
fn test_map_values() {
    let index_content = "123456789 a.txt\n12388798 b.txt\n88321767 c.txt\n123817237 d.txt\n";
    let mut index = Index::default();
    index.load_content(index_content);

    assert_eq!(index.get_hash("a.txt"), Some(&"123456789".to_string()));
    assert_eq!(index.get_hash("b.txt"), Some(&"12388798".to_string()));
    assert_eq!(index.get_hash("c.txt"), Some(&"88321767".to_string()));
    assert_eq!(index.get_hash("d.txt"), Some(&"123817237".to_string()));
}

#[test]
fn test_add_new_file() {
    let mut index = Index::default();
    let path = "new.rs";
    let hash = "filehashed";
    index.add_file(path, &hash).unwrap();

    assert!(index.contains(path));
}

#[test]
fn test_add_updated_file() {
    let mut index = Index::default();
    let path = "new.rs";
    let hash = "filehashed";
    index.add_file(path, &hash).unwrap();

    let hash = "filehashedupdated";
    index.add_file(path, &hash).unwrap();
    assert_eq!(index.get_hash(path), Some(&hash.to_string()));
}

#[test]
fn test_remove_file() {
    let index_content = "hashed old.txt";
    let mut index = Index::default();
    index.load_content(index_content);
    let path = "old.txt";

    assert!(index.contains(path));
    index.remove_file(path).unwrap();

    assert!(!index.contains(path));
}

#[test]
fn removing_an_unstaged_path_is_not_found() {
    let mut index = Index::default();
    assert_eq!(index.remove_file("missing.txt"), Err(IndexError::NotFound));
    assert_eq!(Index::not_found_message("missing.txt"), "Path not found in index: missing.txt. Cannot remove");
}

#[test]
fn lines_without_a_space_are_skipped() {
    let mut index = Index::default();
    index.load_content("nospace\nabc path with spaces.txt\n");
    assert!(!index.contains("nospace"));
    assert_eq!(index.get_hash("path with spaces.txt"), Some(&"abc".to_string()));
}

#[test]
fn index_content_loads_back() {
    let mut index = Index::new("idx", ".mgit", ".mgitignore");
    index.add_file("a.txt", "111").unwrap();
    index.add_file("dir/b.txt", "222").unwrap();
    let text = index.content();
    assert_eq!(text, "111 a.txt\n222 dir/b.txt\n");
    let loaded = Index::with(&text, "idx", ".mgit", ".mgitignore");
    assert_eq!(loaded.iter(), index.iter());
    assert_eq!(loaded.path(), "idx");
    assert_eq!(loaded.git_dir(), ".mgit");
}

#[test]
fn default_index_has_no_paths() {
    let index = Index::default();
    assert!(index.is_empty());
    assert_eq!(index.path(), "");
    assert_eq!(index.git_dir(), "");
    assert_eq!(index.gitignore_path(), "");
}

#[test]
fn contains_agrees_with_get_hash() {
    let mut index = Index::default();
    assert!(!index.contains("a.txt"));
    assert_eq!(index.get_hash("a.txt"), None);
    index.load_content("123456789 a.txt\n");
    assert_eq!(index.contains("a.txt"), index.get_hash("a.txt").is_some());
    assert_eq!(index.contains("b.txt"), index.get_hash("b.txt").is_some());
    assert_eq!(index.get_hash("a.txt"), Some(&"123456789".to_string()));
}
