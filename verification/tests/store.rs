//! Tests of the store and the per-command execution, frame to response.

use tcpfs::codec::push_u32_be;
use tcpfs::placement::{physical_location, TimeParts};
use tcpfs::store::{RequestHandler, Response, Store};
use tcpfs::{Error, Limits};

const NS1: [u8; 16] = [1u8; 16];
const NS2: [u8; 16] = [2u8; 16];

#[test]
fn upload_then_download_round_trips() {
    let mut store = Store::new();
    RequestHandler::handle_upload(
        &mut store,
        NS1.to_vec(),
        b"/a/b.txt".to_vec(),
        b"hello bytes".to_vec(),
    )
    .unwrap();
    let data = RequestHandler::handle_download(&store, &NS1, b"/a/b.txt").unwrap();
    assert_eq!(data, b"hello bytes".to_vec());
}

#[test]
fn reupload_of_same_key_conflicts() {
    let mut store = Store::new();
    RequestHandler::handle_upload(&mut store, NS1.to_vec(), b"/a".to_vec(), b"one".to_vec())
        .unwrap();
    let again =
        RequestHandler::handle_upload(&mut store, NS1.to_vec(), b"/a".to_vec(), b"two".to_vec());
    assert_eq!(again, Err(Error::Conflict));
    // The original bytes stand.
    let data = RequestHandler::handle_download(&store, &NS1, b"/a").unwrap();
    assert_eq!(data, b"one".to_vec());
}

#[test]
fn delete_frees_exactly_the_object_size() {
    let mut store = Store::new();
    RequestHandler::handle_upload(&mut store, NS1.to_vec(), b"/a".to_vec(), vec![0u8; 321])
        .unwrap();
    RequestHandler::handle_upload(&mut store, NS1.to_vec(), b"/b".to_vec(), vec![0u8; 79])
        .unwrap();
    assert_eq!(store.index.total_size(&NS1), Some(400));

    let freed = RequestHandler::handle_delete(&mut store, &NS1, b"/a").unwrap();
    assert_eq!(freed, 321);
    assert_eq!(store.index.total_size(&NS1), Some(79));
    assert_eq!(
        RequestHandler::handle_download(&store, &NS1, b"/a").err(),
        Some(Error::NotFound)
    );
    assert_eq!(
        RequestHandler::handle_delete(&mut store, &NS1, b"/a").err(),
        Some(Error::NotFound)
    );
}

#[test]
fn namespace_cascade_frees_the_sum() {
    let mut store = Store::new();
    RequestHandler::handle_upload(&mut store, NS1.to_vec(), b"/a".to_vec(), vec![0u8; 300])
        .unwrap();
    RequestHandler::handle_upload(&mut store, NS1.to_vec(), b"/b".to_vec(), vec![0u8; 700])
        .unwrap();
    let freed = RequestHandler::handle_delete_namespace(&mut store, &NS1).unwrap();
    assert_eq!(freed, 1000);
    assert!(store.index.total_size(&NS1).is_none());
    assert!(store.index.get_objects_in_path(&NS1, b"/").is_empty());
    assert_eq!(
        RequestHandler::handle_delete_namespace(&mut store, &NS1).err(),
        Some(Error::NotFound)
    );
}

#[test]
fn listing_classifies_files_and_directories() {
    let mut store = Store::new();
    RequestHandler::handle_upload(&mut store, NS1.to_vec(), b"/a/x".to_vec(), b"1".to_vec())
        .unwrap();
    RequestHandler::handle_upload(&mut store, NS1.to_vec(), b"/a/y".to_vec(), b"22".to_vec())
        .unwrap();
    RequestHandler::handle_upload(&mut store, NS1.to_vec(), b"/a/y/z".to_vec(), b"333".to_vec())
        .unwrap();
    let entries = store.index.get_objects_in_path(&NS1, b"/a/");
    assert_eq!(entries.len(), 2);
    assert_eq!(entries[0].path, b"/a/x".to_vec());
    assert!(!entries[0].is_dir);
    assert_eq!(entries[1].path, b"/a/y".to_vec());
    assert!(entries[1].is_dir);
}

#[test]
fn distinct_namespaces_account_independently() {
    let mut store = Store::new();
    RequestHandler::handle_upload(&mut store, NS1.to_vec(), b"/k".to_vec(), vec![0u8; 11])
        .unwrap();
    RequestHandler::handle_upload(&mut store, NS2.to_vec(), b"/k".to_vec(), vec![0u8; 22])
        .unwrap();
    assert_eq!(store.index.total_size(&NS1), Some(11));
    assert_eq!(store.index.total_size(&NS2), Some(22));
    assert_eq!(
        RequestHandler::handle_download(&store, &NS1, b"/k").unwrap().len(),
        11
    );
    assert_eq!(
        RequestHandler::handle_download(&store, &NS2, b"/k").unwrap().len(),
        22
    );
}

#[test]
fn create_namespace_returns_a_v4_identifier() {
    let mut store = Store::new();
    let id = RequestHandler::handle_create_namespace(&mut store).unwrap();
    assert_eq!(id.len(), 16);
    assert_eq!(id[6] >> 4, 4);
    assert_eq!(id[8] >> 6, 2);
    assert_eq!(store.index.total_size(&id), Some(0));
}

#[test]
fn resolve_download_distinguishes_absence_from_corruption() {
    assert_eq!(
        RequestHandler::resolve_download(false, None),
        Err(Error::NotFound)
    );
    assert_eq!(
        RequestHandler::resolve_download(true, None),
        Err(Error::Internal)
    );
    assert_eq!(
        RequestHandler::resolve_download(true, Some(b"x".to_vec())),
        Ok(b"x".to_vec())
    );
}

#[test]
fn placement_is_namespace_then_time_segments() {
    let ns: Vec<u8> = vec![
        0x00, 0x11, 0x22, 0x33, 0x44, 0x55, 0x66, 0x77, 0x88, 0x99, 0xaa, 0xbb, 0xcc, 0xdd, 0xee,
        0xff,
    ];
    let t = TimeParts { year: 2024, month: 1, day: 2, hour: 3, minute: 4, second: 5, nanosecond: 6 };
    let loc = physical_location(&ns, &t);
    assert_eq!(
        loc,
        b"00112233-4455-6677-8899-aabbccddeeff/2024/1/2/3/4/5/6/file.data".to_vec()
    );

    let t2 =
        TimeParts { year: -5, month: 12, day: 31, hour: 23, minute: 59, second: 58, nanosecond: 0 };
    let loc2 = physical_location(&ns, &t2);
    assert_eq!(
        loc2,
        b"00112233-4455-6677-8899-aabbccddeeff/-5/12/31/23/59/58/0/file.data".to_vec()
    );
}

fn upload_frame(ns: &[u8; 16], path: &[u8], declared_len: u32, data: &[u8]) -> Vec<u8> {
    let mut f: Vec<u8> = vec![0x01];
    push_u32_be(&mut f, path.len() as u32);
    push_u32_be(&mut f, declared_len);
    f.extend_from_slice(ns);
    f.extend_from_slice(path);
    f.extend_from_slice(data);
    f
}

#[test]
fn oversized_declared_file_len_rejected_before_any_write() {
    let mut store = Store::new();
    let limits = Limits { max_path_len: 100, max_file_len: 10 };
    let frame = upload_frame(&NS1, b"/a", 11, &[0u8; 11]);
    let r = RequestHandler::handle_frame(&mut store, &frame, &limits);
    assert_eq!(r.err(), Some(Error::Protocol));
    // Nothing was persisted: no namespace, no object, no bytes.
    assert!(store.index.total_size(&NS1).is_none());
    assert!(store.files.is_empty());
}

#[test]
fn frame_dispatch_runs_each_command() {
    let mut store = Store::new();
    let limits = Limits::default();

    // UPLOAD
    let frame = upload_frame(&NS1, b"/a/b", 4, b"data");
    match RequestHandler::handle_frame(&mut store, &frame, &limits).unwrap() {
        Response::Done => {}
        _ => panic!("upload answered with the wrong response"),
    }

    // DOWNLOAD: opcode | path_len | namespace | path
    let mut frame: Vec<u8> = vec![0x02];
    push_u32_be(&mut frame, 4);
    frame.extend_from_slice(&NS1);
    frame.extend_from_slice(b"/a/b");
    match RequestHandler::handle_frame(&mut store, &frame, &limits).unwrap() {
        Response::Data(d) => assert_eq!(d, b"data".to_vec()),
        _ => panic!("download answered with the wrong response"),
    }

    // LIST: opcode | path_len | namespace | path
    let mut frame: Vec<u8> = vec![0x04];
    push_u32_be(&mut frame, 3);
    frame.extend_from_slice(&NS1);
    frame.extend_from_slice(b"/a/");
    match RequestHandler::handle_frame(&mut store, &frame, &limits).unwrap() {
        Response::Listing(bytes) => assert!(!bytes.is_empty()),
        _ => panic!("list answered with the wrong response"),
    }

    // DELETE: opcode | namespace | path_len | path
    let mut frame: Vec<u8> = vec![0x03];
    frame.extend_from_slice(&NS1);
    push_u32_be(&mut frame, 4);
    frame.extend_from_slice(b"/a/b");
    match RequestHandler::handle_frame(&mut store, &frame, &limits).unwrap() {
        Response::Freed(n) => assert_eq!(n, 4),
        _ => panic!("delete answered with the wrong response"),
    }

    // CREATE_NAMESPACE: bare opcode
    let created = match RequestHandler::handle_frame(&mut store, &[0x05], &limits).unwrap() {
        Response::NamespaceId(id) => id,
        _ => panic!("create answered with the wrong response"),
    };

    // DELETE_NAMESPACE: opcode | namespace
    let mut frame: Vec<u8> = vec![0x06];
    frame.extend_from_slice(&created);
    match RequestHandler::handle_frame(&mut store, &frame, &limits).unwrap() {
        Response::Freed(n) => assert_eq!(n, 0),
        _ => panic!("delete-namespace answered with the wrong response"),
    }

    // Unknown opcode closes with a protocol error and no side effects.
    assert_eq!(
        RequestHandler::handle_frame(&mut store, &[0x09], &limits).err(),
        Some(Error::Protocol)
    );
}
