//! The wire codec: one fixed binary frame layout per opcode.
//!
//! All multi-byte integers are big-endian; a namespace identifier is 16 raw
//! bytes. Declared lengths are untrusted: they are checked against the
//! configured [`Limits`] while parsing the fixed-size header, before any
//! payload byte is read, so an absurd length never causes an allocation.

use vstd::prelude::*;

use crate::bytes::bytes_of;
use crate::bytes::push_bytes;
use crate::Error;
use crate::Limits;

verus! {

/// The commands of the protocol, one per opcode byte.
#[derive(Clone, Copy, Debug, PartialEq, Eq, Structural)]
pub enum Opcode {
    Upload,
    Download,
    Delete,
    List,
    CreateNamespace,
    DeleteNamespace,
}

/// Which command an opcode byte selects, if any.
pub open spec fn spec_parse_opcode(b: u8) -> Option<Opcode> {
    if b == 0x01 {
        Some(Opcode::Upload)
    } else if b == 0x02 {
        Some(Opcode::Download)
    } else if b == 0x03 {
        Some(Opcode::Delete)
    } else if b == 0x04 {
        Some(Opcode::List)
    } else if b == 0x05 {
        Some(Opcode::CreateNamespace)
    } else if b == 0x06 {
        Some(Opcode::DeleteNamespace)
    } else {
        None
    }
}

/// Reads the opcode byte. An unknown opcode is an explicit protocol error:
/// the connection closes without side effects.
pub fn parse_opcode(b: u8) -> (r: Result<Opcode, Error>)
    ensures
        match r {
            Ok(op) => spec_parse_opcode(b) == Some(op),
            Err(e) => e == Error::Protocol && spec_parse_opcode(b) is None,
        },
{
    match b {
        0x01 => Ok(Opcode::Upload),
        0x02 => Ok(Opcode::Download),
        0x03 => Ok(Opcode::Delete),
        0x04 => Ok(Opcode::List),
        0x05 => Ok(Opcode::CreateNamespace),
        0x06 => Ok(Opcode::DeleteNamespace),
        _ => Err(Error::Protocol),
    }
}

/// How many header bytes follow the opcode byte, per command.
pub open spec fn spec_header_len(op: Opcode) -> int {
    match op {
        Opcode::Upload => 24,
        Opcode::Download => 20,
        Opcode::Delete => 20,
        Opcode::List => 20,
        Opcode::CreateNamespace => 0,
        Opcode::DeleteNamespace => 16,
    }
}

/// Returns the number of header bytes that follow the opcode byte.
pub fn header_len(op: Opcode) -> (n: usize)
    ensures
        n == spec_header_len(op),
{
    match op {
        Opcode::Upload => 24,
        Opcode::Download => 20,
        Opcode::Delete => 20,
        Opcode::List => 20,
        Opcode::CreateNamespace => 0,
        Opcode::DeleteNamespace => 16,
    }
}

/// The value of four big-endian bytes.
pub open spec fn be32(s: Seq<u8>) -> int
    recommends
        s.len() == 4,
{
    s[0] * 0x100_0000 + s[1] * 0x1_0000 + s[2] * 0x100 + s[3]
}

/// Reads a big-endian `u32` at offset `off`.
pub fn read_u32_be(b: &[u8], off: usize) -> (x: u32)
    requires
        off + 4 <= b@.len(),
    ensures
        x == be32(b@.subrange(off as int, off + 4)),
{
    let x: u32 = (b[off] as u32) * 0x100_0000 + (b[off + 1] as u32) * 0x1_0000 + (b[off + 2]
        as u32) * 0x100 + (b[off + 3] as u32);
    proof {
        let s = b@.subrange(off as int, off + 4);
        assert(s[0] == b@[off as int]);
        assert(s[1] == b@[off + 1]);
        assert(s[2] == b@[off + 2]);
        assert(s[3] == b@[off + 3]);
    }
    x
}

/// The path length a header declares (0 for commands without one).
pub open spec fn spec_path_len(op: Opcode, h: Seq<u8>) -> int
    recommends
        h.len() == spec_header_len(op),
{
    match op {
        Opcode::Upload => be32(h.subrange(0, 4)),
        Opcode::Download => be32(h.subrange(0, 4)),
        Opcode::Delete => be32(h.subrange(16, 20)),
        Opcode::List => be32(h.subrange(0, 4)),
        Opcode::CreateNamespace => 0,
        Opcode::DeleteNamespace => 0,
    }
}

/// The file length a header declares (0 for commands without one).
pub open spec fn spec_file_len(op: Opcode, h: Seq<u8>) -> int
    recommends
        h.len() == spec_header_len(op),
{
    match op {
        Opcode::Upload => be32(h.subrange(4, 8)),
        _ => 0,
    }
}

/// The 16 namespace bytes a header carries (empty for CREATE_NAMESPACE).
pub open spec fn spec_ns(op: Opcode, h: Seq<u8>) -> Seq<u8>
    recommends
        h.len() == spec_header_len(op),
{
    match op {
        Opcode::Upload => h.subrange(8, 24),
        Opcode::Download => h.subrange(4, 20),
        Opcode::Delete => h.subrange(0, 16),
        Opcode::List => h.subrange(4, 20),
        Opcode::CreateNamespace => Seq::empty(),
        Opcode::DeleteNamespace => h.subrange(0, 16),
    }
}

/// A parsed header: the fixed-size fields that precede the payload.
/// `path_len` and `file_len` are 0 for commands that do not carry them,
/// and `namespace` is empty for CREATE_NAMESPACE.
pub struct Header {
    pub opcode: Opcode,
    pub namespace: Vec<u8>,
    pub path_len: u32,
    pub file_len: u32,
}

/// Parses the fixed-size header of command `op` and checks the declared
/// lengths against the configured bounds. An oversized declaration is
/// rejected here, before any payload byte is read or stored.
pub fn parse_header(op: Opcode, h: &[u8], limits: &Limits) -> (r: Result<Header, Error>)
    requires
        h@.len() == spec_header_len(op),
    ensures
        match r {
            Ok(hd) => {
                &&& spec_path_len(op, h@) <= limits.max_path_len
                &&& spec_file_len(op, h@) <= limits.max_file_len
                &&& hd.opcode == op
                &&& hd.namespace@ == spec_ns(op, h@)
                &&& hd.path_len == spec_path_len(op, h@)
                &&& hd.file_len == spec_file_len(op, h@)
            },
            Err(e) => {
                &&& e == Error::Protocol
                &&& (spec_path_len(op, h@) > limits.max_path_len || spec_file_len(op, h@)
                    > limits.max_file_len)
            },
        },
{
    let (path_len, file_len, ns): (u32, u32, Vec<u8>) = match op {
        Opcode::Upload => (read_u32_be(h, 0), read_u32_be(h, 4), bytes_of(h, 8, 24)),
        Opcode::Download => (read_u32_be(h, 0), 0, bytes_of(h, 4, 20)),
        Opcode::Delete => (read_u32_be(h, 16), 0, bytes_of(h, 0, 16)),
        Opcode::List => (read_u32_be(h, 0), 0, bytes_of(h, 4, 20)),
        Opcode::CreateNamespace => (0, 0, Vec::new()),
        Opcode::DeleteNamespace => (0, 0, bytes_of(h, 0, 16)),
    };
    if path_len > limits.max_path_len || file_len > limits.max_file_len {
        Err(Error::Protocol)
    } else {
        Ok(Header { opcode: op, namespace: ns, path_len, file_len })
    }
}

/// A fully parsed request frame.
pub enum Request {
    Upload { namespace: Vec<u8>, path: Vec<u8>, data: Vec<u8> },
    Download { namespace: Vec<u8>, path: Vec<u8> },
    Delete { namespace: Vec<u8>, path: Vec<u8> },
    List { namespace: Vec<u8>, prefix: Vec<u8> },
    CreateNamespace,
    DeleteNamespace { namespace: Vec<u8> },
}

/// The mathematical shape of a parsed request frame.
pub enum RequestView {
    Upload { namespace: Seq<u8>, path: Seq<u8>, data: Seq<u8> },
    Download { namespace: Seq<u8>, path: Seq<u8> },
    Delete { namespace: Seq<u8>, path: Seq<u8> },
    List { namespace: Seq<u8>, prefix: Seq<u8> },
    CreateNamespace,
    DeleteNamespace { namespace: Seq<u8> },
}

impl View for Request {
    type V = RequestView;

    open spec fn view(&self) -> RequestView {
        match self {
            Request::Upload { namespace, path, data } => RequestView::Upload {
                namespace: namespace@,
                path: path@,
                data: data@,
            },
            Request::Download { namespace, path } => RequestView::Download {
                namespace: namespace@,
                path: path@,
            },
            Request::Delete { namespace, path } => RequestView::Delete {
                namespace: namespace@,
                path: path@,
            },
            Request::List { namespace, prefix } => RequestView::List {
                namespace: namespace@,
                prefix: prefix@,
            },
            Request::CreateNamespace => RequestView::CreateNamespace,
            Request::DeleteNamespace { namespace } => RequestView::DeleteNamespace {
                namespace: namespace@,
            },
        }
    }
}

/// Whether a run of bytes is well-formed UTF-8, as std's `str::from_utf8`
/// decides it. The data model calls a logical path a string, so a frame
/// whose path bytes are not UTF-8 is malformed.
pub uninterp spec fn utf8_valid(s: Seq<u8>) -> bool;

/// Relies on std's `str::from_utf8`: whether the bytes are well-formed
/// UTF-8, a function of the bytes alone.
#[verifier::external_body]
fn utf8_check(b: &[u8]) -> (r: bool)
    ensures
        r == utf8_valid(b@),
{
    std::str::from_utf8(b).is_ok()
}

/// The request a whole frame decodes to, if the frame is well formed:
/// a known opcode, declared lengths within bounds, exactly the declared
/// number of payload bytes, and a path that is well-formed UTF-8 (an
/// empty path trivially is).
pub open spec fn spec_decode(f: Seq<u8>, max_path: int, max_file: int) -> Option<RequestView> {
    if f.len() < 1 {
        None
    } else {
        match spec_parse_opcode(f[0]) {
            None => None,
            Some(op) => {
                let hl = spec_header_len(op);
                if f.len() < 1 + hl {
                    None
                } else {
                    let h = f.subrange(1, 1 + hl);
                    let pl = spec_path_len(op, h);
                    let fl = spec_file_len(op, h);
                    if pl > max_path || fl > max_file {
                        None
                    } else if f.len() != 1 + hl + pl + fl {
                        None
                    } else if pl > 0 && !utf8_valid(f.subrange(1 + hl, 1 + hl + pl)) {
                        None
                    } else {
                        let ns = spec_ns(op, h);
                        let path = f.subrange(1 + hl, 1 + hl + pl);
                        let data = f.subrange(1 + hl + pl, 1 + hl + pl + fl);
                        Some(
                            match op {
                                Opcode::Upload => RequestView::Upload { namespace: ns, path, data },
                                Opcode::Download => RequestView::Download { namespace: ns, path },
                                Opcode::Delete => RequestView::Delete { namespace: ns, path },
                                Opcode::List => RequestView::List { namespace: ns, prefix: path },
                                Opcode::CreateNamespace => RequestView::CreateNamespace,
                                Opcode::DeleteNamespace => RequestView::DeleteNamespace {
                                    namespace: ns,
                                },
                            },
                        )
                    }
                }
            },
        }
    }
}

/// Decodes one whole request frame. A malformed frame — unknown opcode,
/// truncated header, a declared length above the configured bound, a
/// payload that is not exactly as long as declared, or a logical path
/// that is not well-formed UTF-8 — is a protocol error.
pub fn decode_request(frame: &[u8], limits: &Limits) -> (r: Result<Request, Error>)
    ensures
        match r {
            Ok(req) => spec_decode(
                frame@,
                limits.max_path_len as int,
                limits.max_file_len as int,
            ) == Some(req@),
            Err(e) => e == Error::Protocol && spec_decode(
                frame@,
                limits.max_path_len as int,
                limits.max_file_len as int,
            ) is None,
        },
{
    if frame.len() < 1 {
        return Err(Error::Protocol);
    }
    let op = match parse_opcode(frame[0]) {
        Ok(op) => op,
        Err(e) => {
            return Err(e);
        },
    };
    let hl = header_len(op);
    if frame.len() < 1 + hl {
        return Err(Error::Protocol);
    }
    let header_bytes = bytes_of(frame, 1, 1 + hl);
    let hd = match parse_header(op, header_bytes.as_slice(), limits) {
        Ok(hd) => hd,
        Err(e) => {
            return Err(e);
        },
    };
    let pl = hd.path_len as usize;
    let fl = hd.file_len as usize;
    if (frame.len() as u64) != 1 + (hl as u64) + (hd.path_len as u64) + (hd.file_len as u64) {
        return Err(Error::Protocol);
    }
    let path = bytes_of(frame, 1 + hl, 1 + hl + pl);
    if path.len() > 0 && !utf8_check(path.as_slice()) {
        return Err(Error::Protocol);
    }
    let data = bytes_of(frame, 1 + hl + pl, 1 + hl + pl + fl);
    let ns = hd.namespace;
    match op {
        Opcode::Upload => Ok(Request::Upload { namespace: ns, path, data }),
        Opcode::Download => Ok(Request::Download { namespace: ns, path }),
        Opcode::Delete => Ok(Request::Delete { namespace: ns, path }),
        Opcode::List => Ok(Request::List { namespace: ns, prefix: path }),
        Opcode::CreateNamespace => Ok(Request::CreateNamespace),
        Opcode::DeleteNamespace => Ok(Request::DeleteNamespace { namespace: ns }),
    }
}

/// The four big-endian bytes of a `u32`.
pub open spec fn be32_bytes(x: u32) -> Seq<u8> {
    seq![
        (x / 0x100_0000 % 0x100) as u8,
        (x / 0x1_0000 % 0x100) as u8,
        (x / 0x100 % 0x100) as u8,
        (x % 0x100) as u8,
    ]
}

/// The eight big-endian bytes of a `u64`.
pub open spec fn be64_bytes(x: u64) -> Seq<u8> {
    seq![
        (x / 0x100_0000_0000_0000 % 0x100) as u8,
        (x / 0x1_0000_0000_0000 % 0x100) as u8,
        (x / 0x100_0000_0000 % 0x100) as u8,
        (x / 0x1_0000_0000 % 0x100) as u8,
        (x / 0x100_0000 % 0x100) as u8,
        (x / 0x1_0000 % 0x100) as u8,
        (x / 0x100 % 0x100) as u8,
        (x % 0x100) as u8,
    ]
}

/// Appends a `u32` in big-endian order.
pub fn push_u32_be(out: &mut Vec<u8>, x: u32)
    ensures
        final(out)@ == old(out)@ + be32_bytes(x),
{
    out.push((x / 0x100_0000 % 0x100) as u8);
    out.push((x / 0x1_0000 % 0x100) as u8);
    out.push((x / 0x100 % 0x100) as u8);
    out.push((x % 0x100) as u8);
    proof {
        assert(out@ =~= old(out)@ + be32_bytes(x));
    }
}

/// Appends a `u64` in big-endian order.
pub fn push_u64_be(out: &mut Vec<u8>, x: u64)
    ensures
        final(out)@ == old(out)@ + be64_bytes(x),
{
    out.push((x / 0x100_0000_0000_0000 % 0x100) as u8);
    out.push((x / 0x1_0000_0000_0000 % 0x100) as u8);
    out.push((x / 0x100_0000_0000 % 0x100) as u8);
    out.push((x / 0x1_0000_0000 % 0x100) as u8);
    out.push((x / 0x100_0000 % 0x100) as u8);
    out.push((x / 0x1_0000 % 0x100) as u8);
    out.push((x / 0x100 % 0x100) as u8);
    out.push((x % 0x100) as u8);
    proof {
        assert(out@ =~= old(out)@ + be64_bytes(x));
    }
}

/// The DELETE and DELETE_NAMESPACE response: `bytes_freed` as a big-endian `u64`.
pub fn encode_freed(bytes_freed: u64) -> (r: Vec<u8>)
    ensures
        r@ == be64_bytes(bytes_freed),
{
    let mut out: Vec<u8> = Vec::new();
    push_u64_be(&mut out, bytes_freed);
    proof {
        assert(out@ =~= be64_bytes(bytes_freed));
    }
    out
}

/// One entry of a LIST response: an immediate child of the queried prefix,
/// classified as directory-like when further objects nest beneath it.
pub struct ListEntry {
    pub is_dir: bool,
    pub path: Vec<u8>,
    pub size: u64,
}

/// The mathematical shape of a listing entry.
pub struct ListEntryView {
    pub is_dir: bool,
    pub path: Seq<u8>,
    pub size: u64,
}

impl View for ListEntry {
    type V = ListEntryView;

    open spec fn view(&self) -> ListEntryView {
        ListEntryView { is_dir: self.is_dir, path: self.path@, size: self.size }
    }
}

/// A value clamped into the 32-bit field the wire layout gives it.
pub open spec fn sat32(n: int) -> int {
    if n > 0xFFFF_FFFF {
        0xFFFF_FFFF
    } else {
        n
    }
}

/// One LIST response record:
/// `is_dir(1) | path_len(u32) | namespace(16) | size(u32) | path | \r\n`.
/// A size or path length beyond the 32-bit field saturates.
pub open spec fn spec_record_bytes(e: ListEntryView, ns: Seq<u8>) -> Seq<u8> {
    seq![if e.is_dir { 1u8 } else { 0u8 }] + be32_bytes(sat32(e.path.len() as int) as u32) + ns
        + be32_bytes(sat32(e.size as int) as u32) + e.path + seq![13u8, 10u8]
}

/// A whole LIST response: the records in order.
pub open spec fn spec_list_bytes(entries: Seq<ListEntryView>, ns: Seq<u8>) -> Seq<u8>
    decreases entries.len(),
{
    if entries.len() == 0 {
        Seq::empty()
    } else {
        spec_list_bytes(entries.drop_last(), ns) + spec_record_bytes(entries.last(), ns)
    }
}

/// Appends one LIST response record for entry `e`.
pub fn push_record(out: &mut Vec<u8>, e: &ListEntry, ns: &Vec<u8>)
    ensures
        final(out)@ == old(out)@ + spec_record_bytes(e@, ns@),
{
    out.push(if e.is_dir { 1u8 } else { 0u8 });
    let path_len32: u32 = if e.path.len() as u64 > 0xFFFF_FFFFu64 {
        0xFFFF_FFFFu32
    } else {
        e.path.len() as u32
    };
    push_u32_be(out, path_len32);
    push_bytes(out, ns.as_slice());
    let size32: u32 = if e.size > 0xFFFF_FFFFu64 {
        0xFFFF_FFFFu32
    } else {
        e.size as u32
    };
    push_u32_be(out, size32);
    push_bytes(out, e.path.as_slice());
    out.push(13u8);
    out.push(10u8);
    proof {
        assert(out@ =~= old(out)@ + spec_record_bytes(e@, ns@));
    }
}

/// Encodes the LIST response for `entries` under namespace `ns`.
pub fn encode_list_response(entries: &Vec<ListEntry>, ns: &Vec<u8>) -> (r: Vec<u8>)
    ensures
        r@ == spec_list_bytes(entries@.map_values(|e: ListEntry| e@), ns@),
{
    let ghost m = entries@.map_values(|e: ListEntry| e@);
    let mut out: Vec<u8> = Vec::new();
    let mut i: usize = 0;
    while i < entries.len()
        invariant
            i <= entries@.len(),
            m == entries@.map_values(|e: ListEntry| e@),
            out@ == spec_list_bytes(m.take(i as int), ns@),
        decreases entries@.len() - i,
    {
        push_record(&mut out, &entries[i], ns);
        proof {
            assert(m.take(i + 1).drop_last() =~= m.take(i as int));
            assert(m.take(i + 1).last() == m[i as int]);
            assert(m[i as int] == entries@[i as int]@);
        }
        i = i + 1;
    }
    proof {
        assert(m.take(entries@.len() as int) =~= m);
    }
    out
}

} // verus!
