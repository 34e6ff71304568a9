//! Tests of the metadata index: size aggregation, insert/delete, and
//! prefix listing over a flat key space.

use tcpfs::index::MetaIndex;

#[test]
fn test_connect() {
    let con = MetaIndex::new();
    assert!(con.total_size(b"test_id").is_none());
}

#[test]
fn test_triggers() {
    let mut con = MetaIndex::new();
    con.insert_metadata(
        b"test_id".to_vec(),
        b"/some/file/path.txt".to_vec(),
        Vec::new(),
        1024,
        Vec::new(),
    )
    .unwrap();
    let result = con.total_size(b"test_id");
    assert_eq!(result, Some(1024));

    con.insert_metadata(
        b"test_id".to_vec(),
        b"/some/file/path2.txt".to_vec(),
        Vec::new(),
        1024,
        Vec::new(),
    )
    .unwrap();
    let result = con.total_size(b"test_id");
    assert_eq!(result, Some(2048));
}

#[test]
fn test_insert_and_delete() {
    let mut con = MetaIndex::new();
    con.insert_metadata(b"testid".to_vec(), b"/path".to_vec(), Vec::new(), 1024, Vec::new())
        .unwrap();
    let obj = con.get_metadata(b"testid", b"/path").unwrap();
    assert_eq!(
        (obj.namespace_id.clone(), obj.path.clone()),
        (b"testid".to_vec(), b"/path".to_vec())
    );
    let bucket_total_size = con.total_size(b"testid").unwrap();
    assert_eq!(bucket_total_size, 1024);

    con.delete_metadata(b"testid", b"/path").unwrap();

    let bucket_total_size = con.total_size(b"testid").unwrap();
    assert_eq!(bucket_total_size, 0);
}

#[test]
fn test_get_by_bucket() {
    let mut con = MetaIndex::new();
    con.insert_metadata(b"testid".to_vec(), b"/path".to_vec(), Vec::new(), 1024, Vec::new())
        .unwrap();
    con.insert_metadata(b"testid".to_vec(), b"/path/one".to_vec(), Vec::new(), 1024, Vec::new())
        .unwrap();
    con.insert_metadata(b"testid".to_vec(), b"/path/two".to_vec(), Vec::new(), 1024, Vec::new())
        .unwrap();
    con.insert_metadata(
        b"testid".to_vec(),
        b"/path/one/two".to_vec(),
        Vec::new(),
        1024,
        Vec::new(),
    )
    .unwrap();

    // test root dir
    let objects = con.get_objects_in_path(b"testid", b"/path/");
    println!("num objects: {}", objects.len());

    // test sub dir, one
    let objects = con.get_objects_in_path(b"testid", b"/path/one/");
    println!("num objects: {}", objects.len());

    // test sub dir, two
    let objects = con.get_objects_in_path(b"testid", b"/path/two/");
    println!("num objects: {}", objects.len());
}

#[test]
fn insert_duplicate_key_conflicts() {
    let mut con = MetaIndex::new();
    con.insert_metadata(b"ns".to_vec(), b"/a".to_vec(), Vec::new(), 10, Vec::new())
        .unwrap();
    let again = con.insert_metadata(b"ns".to_vec(), b"/a".to_vec(), Vec::new(), 10, Vec::new());
    assert_eq!(again, Err(tcpfs::Error::Conflict));
    assert_eq!(con.total_size(b"ns"), Some(10));
}

#[test]
fn insert_overflowing_total_fails() {
    let mut con = MetaIndex::new();
    con.insert_metadata(b"ns".to_vec(), b"/a".to_vec(), Vec::new(), u64::MAX, Vec::new())
        .unwrap();
    let again = con.insert_metadata(b"ns".to_vec(), b"/b".to_vec(), Vec::new(), 1, Vec::new());
    assert_eq!(again, Err(tcpfs::Error::IndexFailure));
    assert_eq!(con.total_size(b"ns"), Some(u64::MAX));
}

#[test]
fn delete_missing_object_is_not_found() {
    let mut con = MetaIndex::new();
    assert_eq!(
        con.delete_metadata(b"ns", b"/a").err(),
        Some(tcpfs::Error::NotFound)
    );
}

#[test]
fn delete_namespace_returns_record() {
    let mut con = MetaIndex::new();
    con.insert_metadata(b"ns".to_vec(), b"/a".to_vec(), Vec::new(), 7, Vec::new())
        .unwrap();
    con.insert_metadata(b"ns".to_vec(), b"/b".to_vec(), Vec::new(), 5, Vec::new())
        .unwrap();
    let rec = con.delete_namespace(b"ns").unwrap();
    assert_eq!(rec.total_size, 12);
    assert_eq!(rec.objects.len(), 2);
    assert!(con.total_size(b"ns").is_none());
    assert_eq!(con.delete_namespace(b"ns").err(), Some(tcpfs::Error::NotFound));
}

#[test]
fn create_namespace_explicitly() {
    let mut con = MetaIndex::new();
    con.create_namespace(b"bucket".to_vec()).unwrap();
    assert_eq!(con.total_size(b"bucket"), Some(0));
    assert_eq!(
        con.create_namespace(b"bucket".to_vec()),
        Err(tcpfs::Error::Conflict)
    );
}

#[test]
fn prefix_listing_returns_immediate_children() {
    let mut con = MetaIndex::new();
    con.insert_metadata(b"ns".to_vec(), b"/a/x".to_vec(), Vec::new(), 1, Vec::new())
        .unwrap();
    con.insert_metadata(b"ns".to_vec(), b"/a/y".to_vec(), Vec::new(), 2, Vec::new())
        .unwrap();
    con.insert_metadata(b"ns".to_vec(), b"/a/y/z".to_vec(), Vec::new(), 3, Vec::new())
        .unwrap();

    let entries = con.get_objects_in_path(b"ns", b"/a/");
    assert_eq!(entries.len(), 2);
    assert_eq!(entries[0].path, b"/a/x".to_vec());
    assert!(!entries[0].is_dir);
    assert_eq!(entries[0].size, 1);
    assert_eq!(entries[1].path, b"/a/y".to_vec());
    assert!(entries[1].is_dir);
    assert_eq!(entries[1].size, 2);
}
