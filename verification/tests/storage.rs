use decentralized_file_storage_backend::errors::StorageError;
use decentralized_file_storage_backend::storage::FileStorage;

const GIB: usize = 1024 * 1024 * 1024;
const MIB: usize = 1024 * 1024;

fn strings(items: &[&str]) -> Vec<String> {
    items.iter().map(|s| s.to_string()).collect()
}

#[test]
fn upload_then_download_returns_identical_content() {
    let mut s = FileStorage::new();
    let content = vec![10u8, 20, 30, 40, 50];
    let r = s.upload_file(
        "doc.bin".to_string(),
        content.clone(),
        "binary".to_string(),
        strings(&["raw"]),
        100,
    );
    assert!(matches!(r, Ok(true)));
    let f = s.download_file(&"doc.bin".to_string()).unwrap();
    assert_eq!(f.content, content);
    assert_eq!(f.name, "doc.bin");
    assert_eq!(f.metadata.name, "doc.bin");
    assert_eq!(f.metadata.size, 5);
    assert_eq!(f.metadata.upload_timestamp, 100);
    assert_eq!(f.metadata.last_modified, 100);
    assert_eq!(f.metadata.file_type, "binary");
    assert!(!f.metadata.is_encrypted);
    assert!(f.metadata.version_history.is_empty());
    assert_eq!(f.metadata.tags, strings(&["raw"]));
}

#[test]
fn oversize_upload_fails_with_storage_limit_and_leaves_usage() {
    let mut s = FileStorage::new();
    let r = s.upload_file(
        "small.txt".to_string(),
        vec![9u8; 100],
        "text".to_string(),
        vec![],
        1,
    );
    assert!(matches!(r, Ok(true)));
    let big = vec![0u8; 10 * MIB + 1];
    let r = s.upload_file("big.bin".to_string(), big, "blob".to_string(), vec![], 2);
    assert!(matches!(r, Err(StorageError::StorageLimit)));
    let (usage, capacity, count) = s.get_storage_analytics();
    assert_eq!(usage, 100);
    assert_eq!(capacity, GIB);
    assert_eq!(count, 1);
    assert!(s.download_file(&"big.bin".to_string()).is_err());
}

#[test]
fn upload_at_the_per_file_cap_is_accepted() {
    let mut s = FileStorage::new();
    let r = s.upload_file(
        "cap.bin".to_string(),
        vec![7u8; 10 * MIB],
        "blob".to_string(),
        vec![],
        1,
    );
    assert!(matches!(r, Ok(true)));
    let (usage, _, count) = s.get_storage_analytics();
    assert_eq!(usage, 10 * MIB);
    assert_eq!(count, 1);
}

#[test]
fn delete_then_download_fails_and_usage_drops() {
    let mut s = FileStorage::new();
    s.upload_file("a".to_string(), vec![1, 2, 3, 4], "t".to_string(), vec![], 1)
        .unwrap();
    s.upload_file("b".to_string(), vec![5, 6], "t".to_string(), vec![], 1)
        .unwrap();
    assert_eq!(s.get_storage_analytics().0, 6);
    let r = s.delete_file(&"a".to_string());
    assert!(matches!(r, Ok(true)));
    assert!(matches!(
        s.download_file(&"a".to_string()),
        Err(StorageError::FileNotFound)
    ));
    let (usage, _, count) = s.get_storage_analytics();
    assert_eq!(usage, 2);
    assert_eq!(count, 1);
}

#[test]
fn delete_missing_fails_and_usage_is_unchanged() {
    let mut s = FileStorage::new();
    s.upload_file("kept".to_string(), vec![1, 2, 3], "t".to_string(), vec![], 1)
        .unwrap();
    let r = s.delete_file(&"missing.txt".to_string());
    assert!(matches!(r, Err(StorageError::FileNotFound)));
    assert_eq!(s.get_storage_analytics().0, 3);
}

#[test]
fn overwrite_reclaims_old_size_before_charging_new() {
    let mut s = FileStorage::new();
    let r = s.upload_file(
        "a.txt".to_string(),
        vec![1, 2, 3],
        "text".to_string(),
        strings(&["draft"]),
        5,
    );
    assert!(matches!(r, Ok(true)));
    assert_eq!(s.get_storage_analytics(), (3, 1073741824, 1));
    let r = s.upload_file(
        "a.txt".to_string(),
        vec![1, 2, 3, 4],
        "text".to_string(),
        vec![],
        6,
    );
    assert!(matches!(r, Ok(true)));
    // Documented policy: overwriting reclaims the old 3 bytes, then charges
    // the new 4, so the counter stays equal to the live content.
    assert_eq!(s.get_storage_analytics(), (4, 1073741824, 1));
    let f = s.download_file(&"a.txt".to_string()).unwrap();
    assert_eq!(f.content, vec![1, 2, 3, 4]);
    assert!(f.metadata.tags.is_empty());
    assert_eq!(f.metadata.upload_timestamp, 6);
}

#[test]
fn update_metadata_without_tags_touches_only_the_stamp() {
    let mut s = FileStorage::new();
    s.upload_file(
        "a.txt".to_string(),
        vec![1, 2, 3],
        "text".to_string(),
        strings(&["draft"]),
        10,
    )
    .unwrap();
    let r = s.update_file_metadata(&"a.txt".to_string(), None, 42);
    assert!(matches!(r, Ok(true)));
    let f = s.download_file(&"a.txt".to_string()).unwrap();
    assert_eq!(f.metadata.last_modified, 42);
    assert_eq!(f.metadata.upload_timestamp, 10);
    assert_eq!(f.metadata.tags, strings(&["draft"]));
    assert_eq!(f.content, vec![1, 2, 3]);
    assert_eq!(s.get_storage_analytics().0, 3);
}

#[test]
fn update_metadata_replaces_tags_wholesale() {
    let mut s = FileStorage::new();
    s.upload_file(
        "a.txt".to_string(),
        vec![1],
        "text".to_string(),
        strings(&["draft", "old"]),
        10,
    )
    .unwrap();
    let r = s.update_file_metadata(&"a.txt".to_string(), Some(strings(&["final"])), 11);
    assert!(matches!(r, Ok(true)));
    let f = s.download_file(&"a.txt".to_string()).unwrap();
    assert_eq!(f.metadata.tags, strings(&["final"]));
    assert_eq!(f.metadata.last_modified, 11);
}

#[test]
fn update_metadata_missing_fails_with_file_not_found() {
    let mut s = FileStorage::new();
    let r = s.update_file_metadata(&"nope".to_string(), None, 1);
    assert!(matches!(r, Err(StorageError::FileNotFound)));
}

#[test]
fn create_file_version_keeps_download_and_appends_history() {
    let mut s = FileStorage::new();
    s.upload_file(
        "a.txt".to_string(),
        vec![1, 2, 3],
        "text".to_string(),
        vec![],
        4,
    )
    .unwrap();
    let r = s.create_file_version(&"a.txt".to_string(), vec![9, 9, 9, 9], 5);
    assert!(matches!(r, Ok(true)));
    let f = s.download_file(&"a.txt".to_string()).unwrap();
    assert_eq!(f.content, vec![1, 2, 3]);
    assert_eq!(f.metadata.size, 3);
    assert_eq!(f.metadata.version_history, strings(&["a.txt_5"]));
    assert_eq!(s.get_storage_analytics().0, 3);
    let r = s.create_file_version(&"a.txt".to_string(), vec![8], 71);
    assert!(matches!(r, Ok(true)));
    let f = s.download_file(&"a.txt".to_string()).unwrap();
    assert_eq!(f.metadata.version_history, strings(&["a.txt_5", "a.txt_71"]));
}

#[test]
fn create_file_version_missing_fails_with_file_not_found() {
    let mut s = FileStorage::new();
    let r = s.create_file_version(&"ghost".to_string(), vec![1], 5);
    assert!(matches!(r, Err(StorageError::FileNotFound)));
}

#[test]
fn search_with_empty_query_returns_all_files() {
    let mut s = FileStorage::new();
    s.upload_file("a".to_string(), vec![1], "t".to_string(), strings(&["x"]), 1)
        .unwrap();
    s.upload_file("b".to_string(), vec![2], "t".to_string(), vec![], 1)
        .unwrap();
    s.upload_file("c".to_string(), vec![3], "t".to_string(), strings(&["y"]), 1)
        .unwrap();
    let mut names: Vec<String> = s
        .search_by_tags(&vec![])
        .into_iter()
        .map(|f| f.name)
        .collect();
    names.sort();
    assert_eq!(names, strings(&["a", "b", "c"]));
}

#[test]
fn search_by_one_tag_returns_exactly_the_tagged_subset() {
    let mut s = FileStorage::new();
    s.upload_file(
        "a".to_string(),
        vec![1],
        "t".to_string(),
        strings(&["x", "z"]),
        1,
    )
    .unwrap();
    s.upload_file("b".to_string(), vec![2], "t".to_string(), strings(&["y"]), 1)
        .unwrap();
    s.upload_file("c".to_string(), vec![3], "t".to_string(), strings(&["x"]), 1)
        .unwrap();
    let mut names: Vec<String> = s
        .search_by_tags(&strings(&["x"]))
        .into_iter()
        .map(|f| f.name)
        .collect();
    names.sort();
    assert_eq!(names, strings(&["a", "c"]));
    let both = s.search_by_tags(&strings(&["x", "z"]));
    assert_eq!(both.len(), 1);
    assert_eq!(both[0].name, "a");
    assert!(s.search_by_tags(&strings(&["w"])).is_empty());
}

#[test]
fn file_type_distribution_counts_each_label() {
    let mut s = FileStorage::new();
    s.upload_file("a".to_string(), vec![1], "text".to_string(), vec![], 1)
        .unwrap();
    s.upload_file("b".to_string(), vec![2], "image".to_string(), vec![], 1)
        .unwrap();
    s.upload_file("c".to_string(), vec![3], "text".to_string(), vec![], 1)
        .unwrap();
    let mut dist = s.get_file_type_distribution();
    dist.sort();
    assert_eq!(
        dist,
        vec![("image".to_string(), 1usize), ("text".to_string(), 2usize)]
    );
    let empty = FileStorage::new();
    assert!(empty.get_file_type_distribution().is_empty());
}

#[test]
fn chunk_shards_reassemble_to_the_uploaded_bytes() {
    let mut s = FileStorage::new();
    let mut content = vec![0u8; 2 * MIB + 123];
    for (i, b) in content.iter_mut().enumerate() {
        *b = (i % 251) as u8;
    }
    s.upload_file(
        "big".to_string(),
        content.clone(),
        "blob".to_string(),
        vec![],
        1,
    )
    .unwrap();
    let entry = s
        .file_chunks
        .iter()
        .find(|e| e.key == "big")
        .expect("shard entry for the file name");
    assert_eq!(entry.blocks.len(), 3);
    assert_eq!(entry.blocks[0].len(), MIB);
    assert_eq!(entry.blocks[1].len(), MIB);
    assert_eq!(entry.blocks[2].len(), 123);
    let rebuilt: Vec<u8> = entry.blocks.concat();
    assert_eq!(rebuilt, content);
}

#[test]
fn version_shards_survive_delete_of_the_base_file() {
    let mut s = FileStorage::new();
    s.upload_file("a".to_string(), vec![1, 2], "t".to_string(), vec![], 3)
        .unwrap();
    s.create_file_version(&"a".to_string(), vec![7, 7, 7], 9).unwrap();
    s.delete_file(&"a".to_string()).unwrap();
    assert!(!s.file_chunks.iter().any(|e| e.key == "a"));
    let orphan = s
        .file_chunks
        .iter()
        .find(|e| e.key == "a_9")
        .expect("version shard stays after delete");
    assert_eq!(orphan.blocks.concat(), vec![7, 7, 7]);
}

#[test]
fn empty_store_analytics() {
    let s = FileStorage::new();
    assert_eq!(s.get_storage_analytics(), (0, GIB, 0));
    assert!(s.search_by_tags(&vec![]).is_empty());
}

#[test]
fn empty_content_is_stored_with_an_empty_shard() {
    let mut s = FileStorage::new();
    let r = s.upload_file("void".to_string(), vec![], "t".to_string(), vec![], 1);
    assert!(matches!(r, Ok(true)));
    let f = s.download_file(&"void".to_string()).unwrap();
    assert!(f.content.is_empty());
    assert_eq!(f.metadata.size, 0);
    assert_eq!(s.get_storage_analytics(), (0, GIB, 1));
    let entry = s.file_chunks.iter().find(|e| e.key == "void").unwrap();
    assert!(entry.blocks.is_empty());
}
