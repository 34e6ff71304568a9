//! Tests of the wire codec: opcode dispatch, header parsing with length
//! bounds, whole-frame decoding, and response encoding.

use tcpfs::codec::{
    decode_request, encode_freed, encode_list_response, header_len, parse_header, parse_opcode,
    push_u32_be, push_u64_be, read_u32_be, ListEntry, Opcode, Request,
};
use tcpfs::{Error, Limits};

fn limits() -> Limits {
    Limits { max_path_len: 100, max_file_len: 1000 }
}

#[test]
fn opcode_bytes_map_to_commands() {
    assert_eq!(parse_opcode(0x01), Ok(Opcode::Upload));
    assert_eq!(parse_opcode(0x02), Ok(Opcode::Download));
    assert_eq!(parse_opcode(0x03), Ok(Opcode::Delete));
    assert_eq!(parse_opcode(0x04), Ok(Opcode::List));
    assert_eq!(parse_opcode(0x05), Ok(Opcode::CreateNamespace));
    assert_eq!(parse_opcode(0x06), Ok(Opcode::DeleteNamespace));
    assert_eq!(parse_opcode(0x00), Err(Error::Protocol));
    assert_eq!(parse_opcode(0x07), Err(Error::Protocol));
}

#[test]
fn header_lengths() {
    assert_eq!(header_len(Opcode::Upload), 24);
    assert_eq!(header_len(Opcode::Download), 20);
    assert_eq!(header_len(Opcode::Delete), 20);
    assert_eq!(header_len(Opcode::List), 20);
    assert_eq!(header_len(Opcode::CreateNamespace), 0);
    assert_eq!(header_len(Opcode::DeleteNamespace), 16);
}

#[test]
fn big_endian_round_trip() {
    let mut out: Vec<u8> = Vec::new();
    push_u32_be(&mut out, 0x01020304);
    assert_eq!(out, vec![1, 2, 3, 4]);
    assert_eq!(read_u32_be(&out, 0), 0x01020304);

    let mut out64: Vec<u8> = Vec::new();
    push_u64_be(&mut out64, 0x0102030405060708);
    assert_eq!(out64, vec![1, 2, 3, 4, 5, 6, 7, 8]);

    assert_eq!(encode_freed(1024), vec![0, 0, 0, 0, 0, 0, 4, 0]);
}

fn upload_header(path_len: u32, file_len: u32, ns: &[u8; 16]) -> Vec<u8> {
    let mut h: Vec<u8> = Vec::new();
    push_u32_be(&mut h, path_len);
    push_u32_be(&mut h, file_len);
    h.extend_from_slice(ns);
    h
}

#[test]
fn parse_upload_header_fields() {
    let ns = [7u8; 16];
    let h = upload_header(3, 5, &ns);
    let hd = parse_header(Opcode::Upload, &h, &limits()).unwrap();
    assert_eq!(hd.path_len, 3);
    assert_eq!(hd.file_len, 5);
    assert_eq!(hd.namespace, ns.to_vec());
}

#[test]
fn oversized_path_len_is_rejected() {
    let ns = [7u8; 16];
    let h = upload_header(101, 5, &ns);
    assert_eq!(
        parse_header(Opcode::Upload, &h, &limits()).err(),
        Some(Error::Protocol)
    );
}

#[test]
fn oversized_file_len_is_rejected() {
    let ns = [7u8; 16];
    let h = upload_header(3, 1001, &ns);
    assert_eq!(
        parse_header(Opcode::Upload, &h, &limits()).err(),
        Some(Error::Protocol)
    );
}

#[test]
fn delete_header_carries_namespace_first() {
    let ns = [9u8; 16];
    let mut h: Vec<u8> = Vec::new();
    h.extend_from_slice(&ns);
    push_u32_be(&mut h, 4);
    let hd = parse_header(Opcode::Delete, &h, &limits()).unwrap();
    assert_eq!(hd.namespace, ns.to_vec());
    assert_eq!(hd.path_len, 4);
    assert_eq!(hd.file_len, 0);
}

fn upload_frame(ns: &[u8; 16], path: &[u8], data: &[u8]) -> Vec<u8> {
    let mut f: Vec<u8> = vec![0x01];
    push_u32_be(&mut f, path.len() as u32);
    push_u32_be(&mut f, data.len() as u32);
    f.extend_from_slice(ns);
    f.extend_from_slice(path);
    f.extend_from_slice(data);
    f
}

#[test]
fn decode_whole_upload_frame() {
    let ns = [3u8; 16];
    let frame = upload_frame(&ns, b"/a/b.txt", b"hello");
    match decode_request(&frame, &limits()).unwrap() {
        Request::Upload { namespace, path, data } => {
            assert_eq!(namespace, ns.to_vec());
            assert_eq!(path, b"/a/b.txt".to_vec());
            assert_eq!(data, b"hello".to_vec());
        }
        _ => panic!("decoded the wrong command"),
    }
}

#[test]
fn decode_rejects_malformed_frames() {
    let ns = [3u8; 16];
    // empty frame
    assert_eq!(decode_request(&[], &limits()).err(), Some(Error::Protocol));
    // unknown opcode
    assert_eq!(
        decode_request(&[0x09], &limits()).err(),
        Some(Error::Protocol)
    );
    // truncated header
    assert_eq!(
        decode_request(&[0x01, 0, 0], &limits()).err(),
        Some(Error::Protocol)
    );
    // payload shorter than declared
    let mut frame = upload_frame(&ns, b"/a", b"xy");
    frame.pop();
    assert_eq!(decode_request(&frame, &limits()).err(), Some(Error::Protocol));
    // payload longer than declared
    let mut frame = upload_frame(&ns, b"/a", b"xy");
    frame.push(0);
    assert_eq!(decode_request(&frame, &limits()).err(), Some(Error::Protocol));
}

#[test]
fn non_utf8_path_is_rejected() {
    let ns = [3u8; 16];
    let frame = upload_frame(&ns, &[0xFF, 0xFE], b"xy");
    assert_eq!(decode_request(&frame, &limits()).err(), Some(Error::Protocol));
}

#[test]
fn multi_byte_utf8_path_is_accepted() {
    let ns = [3u8; 16];
    let frame = upload_frame(&ns, "/caf\u{e9}".as_bytes(), b"xy");
    match decode_request(&frame, &limits()).unwrap() {
        Request::Upload { path, .. } => assert_eq!(path, "/caf\u{e9}".as_bytes().to_vec()),
        _ => panic!("decoded the wrong command"),
    }
}

#[test]
fn decode_create_namespace_is_bare_opcode() {
    match decode_request(&[0x05], &limits()).unwrap() {
        Request::CreateNamespace => {}
        _ => panic!("decoded the wrong command"),
    }
}

#[test]
fn list_record_layout() {
    let ns: Vec<u8> = (0u8..16u8).collect();
    let entries = vec![ListEntry { is_dir: true, path: b"/a/y".to_vec(), size: 2 }];
    let bytes = encode_list_response(&entries, &ns);
    let mut expected: Vec<u8> = vec![1];
    push_u32_be(&mut expected, 4);
    expected.extend_from_slice(&ns);
    push_u32_be(&mut expected, 2);
    expected.extend_from_slice(b"/a/y");
    expected.extend_from_slice(b"\r\n");
    assert_eq!(bytes, expected);
}
