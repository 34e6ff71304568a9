//! The storage placement engine: where an object's bytes go on disk.
//!
//! A new object's physical location is partitioned by namespace and then
//! by a time-derived path — year through nanosecond, one directory
//! segment each — ending in a fixed leaf name. Concurrent uploads to the
//! same logical path therefore never contend for the same file; the
//! metadata transaction alone decides which upload wins. The location is
//! relative to the server's storage root, which stays outside the library.

use vstd::prelude::*;

use chrono::Datelike;
use chrono::Timelike;

use crate::query::SEPARATOR;

verus! {

/// A wall-clock instant, decomposed: year, month, day, hour, minute,
/// second, nanosecond.
#[derive(Clone, Copy, Debug, PartialEq, Eq, Structural)]
pub struct TimeParts {
    pub year: i32,
    pub month: u32,
    pub day: u32,
    pub hour: u32,
    pub minute: u32,
    pub second: u32,
    pub nanosecond: u32,
}

/// The ASCII digit for `d`.
pub open spec fn spec_digit(d: int) -> u8
    recommends
        0 <= d <= 9,
{
    (48 + d) as u8
}

/// The decimal digits of a non-negative number, most significant first.
pub open spec fn spec_decimal(n: int) -> Seq<u8>
    recommends
        n >= 0,
    decreases n,
{
    if n < 10 {
        seq![spec_digit(n)]
    } else {
        spec_decimal(n / 10).push(spec_digit(n % 10))
    }
}

/// The decimal text of a possibly negative number: a minus sign, then the
/// digits of its absolute value.
pub open spec fn spec_decimal_signed(n: int) -> Seq<u8> {
    if n < 0 {
        seq![45u8] + spec_decimal(-n)
    } else {
        spec_decimal(n)
    }
}

/// Appends the decimal digits of `n`.
pub fn push_decimal(out: &mut Vec<u8>, n: u32)
    ensures
        final(out)@ == old(out)@ + spec_decimal(n as int),
    decreases n,
{
    if n >= 10 {
        push_decimal(out, n / 10);
    }
    out.push(48 + (n % 10) as u8);
    proof {
        assert(out@ =~= old(out)@ + spec_decimal(n as int));
    }
}

/// Appends the decimal text of `n`, minus sign included if negative.
pub fn push_decimal_signed(out: &mut Vec<u8>, n: i32)
    ensures
        final(out)@ == old(out)@ + spec_decimal_signed(n as int),
{
    if n < 0 {
        out.push(45);
        let m: u32 = ((-(n as i64)) as u64) as u32;
        push_decimal(out, m);
        proof {
            assert(out@ =~= old(out)@ + spec_decimal_signed(n as int));
        }
    } else {
        push_decimal(out, n as u32);
    }
}

/// The ASCII hex digit for `d`, lowercase.
pub open spec fn spec_hex_digit(d: int) -> u8
    recommends
        0 <= d <= 15,
{
    if d < 10 {
        (48 + d) as u8
    } else {
        (87 + d) as u8
    }
}

/// Two lowercase hex digits per byte, high nibble first.
pub open spec fn spec_hex_bytes(b: Seq<u8>) -> Seq<u8>
    decreases b.len(),
{
    if b.len() == 0 {
        Seq::empty()
    } else {
        spec_hex_bytes(b.drop_last()) + seq![
            spec_hex_digit(b.last() as int / 16),
            spec_hex_digit(b.last() as int % 16),
        ]
    }
}

/// The hyphenated lowercase text of a 16-byte identifier: the 32 hex
/// digits with dashes after digits 8, 12, 16 and 20.
pub open spec fn spec_uuid_hyphenated(b: Seq<u8>) -> Seq<u8>
    recommends
        b.len() == 16,
{
    let s = spec_hex_bytes(b);
    s.take(8) + seq![45u8] + s.subrange(8, 12) + seq![45u8] + s.subrange(12, 16) + seq![45u8]
        + s.subrange(16, 20) + seq![45u8] + s.skip(20)
}

/// Relies on `uuid::Uuid::from_slice` and its `Display`: a 16-byte
/// identifier formats as 32 lowercase hex digits, high nibble of each byte
/// first, hyphenated in the 8-4-4-4-12 shape.
#[verifier::external_body]
pub(crate) fn uuid_hyphenated(b: &[u8]) -> (r: Vec<u8>)
    requires
        b@.len() == 16,
    ensures
        r@ == spec_uuid_hyphenated(b@),
{
    uuid::Uuid::from_slice(b).unwrap().to_string().into_bytes()
}

/// Relies on `uuid::Uuid::new_v4`: 16 bytes from the process's random
/// source, with the version nibble forced to 4 and the variant bits to
/// the RFC 4122 pattern. Nothing more is known of the outcome.
#[verifier::external_body]
pub(crate) fn new_namespace_id() -> (r: Vec<u8>)
    ensures
        r@.len() == 16,
        r@[6] / 16 == 4,
        r@[8] / 64 == 2,
{
    uuid::Uuid::new_v4().as_bytes().to_vec()
}

/// The ISO 8601 (`%+`) rendering of a UTC instant. For UTC the rendering
/// is a function of the seven parts alone; nothing more is assumed of it.
pub uninterp spec fn iso_of(t: TimeParts) -> Seq<u8>;

/// Relies on chrono: `DateTime<Utc>` taken from the system clock now,
/// its `%+` (ISO 8601) rendering as the timestamp text, and the
/// `Datelike`/`Timelike` accessors for the parts. The text is the
/// rendering of exactly the instant the parts decompose; of the parts
/// only the accessors' documented ranges are stated; the instant itself
/// is the clock's.
#[verifier::external_body]
pub(crate) fn now_parts() -> (r: (Vec<u8>, TimeParts))
    ensures
        r.0@ == iso_of(r.1),
        1 <= r.1.month <= 12,
        1 <= r.1.day <= 31,
        r.1.hour < 24,
        r.1.minute < 60,
        r.1.second < 60,
        r.1.nanosecond < 2_000_000_000,
{
    let dt: chrono::DateTime<chrono::Utc> = std::time::SystemTime::now().into();
    let iso = format!("{}", dt.format("%+")).into_bytes();
    let parts = TimeParts {
        year: dt.year(),
        month: dt.month(),
        day: dt.day(),
        hour: dt.hour(),
        minute: dt.minute(),
        second: dt.second(),
        nanosecond: dt.nanosecond(),
    };
    (iso, parts)
}

/// The fixed leaf name every physical location ends in: `file.data`.
pub open spec fn spec_leaf() -> Seq<u8> {
    seq![102u8, 105u8, 108u8, 101u8, 46u8, 100u8, 97u8, 116u8, 97u8]
}

/// The physical location for a new object: the namespace's hyphenated
/// identifier, the time parts year through nanosecond as one directory
/// segment each, and the fixed leaf name, separator-joined.
pub open spec fn spec_physical(ns: Seq<u8>, t: TimeParts) -> Seq<u8>
    recommends
        ns.len() == 16,
{
    spec_uuid_hyphenated(ns) + seq![SEPARATOR] + spec_decimal_signed(t.year as int) + seq![
        SEPARATOR,
    ] + spec_decimal(t.month as int) + seq![SEPARATOR] + spec_decimal(t.day as int) + seq![
        SEPARATOR,
    ] + spec_decimal(t.hour as int) + seq![SEPARATOR] + spec_decimal(t.minute as int) + seq![
        SEPARATOR,
    ] + spec_decimal(t.second as int) + seq![SEPARATOR] + spec_decimal(t.nanosecond as int) + seq![
        SEPARATOR,
    ] + spec_leaf()
}

/// Computes the physical location for a new object of namespace
/// `namespace_id`, placed at instant `t`.
pub fn physical_location(namespace_id: &[u8], t: &TimeParts) -> (r: Vec<u8>)
    requires
        namespace_id@.len() == 16,
    ensures
        r@ == spec_physical(namespace_id@, *t),
{
    let mut out = uuid_hyphenated(namespace_id);
    out.push(SEPARATOR);
    push_decimal_signed(&mut out, t.year);
    out.push(SEPARATOR);
    proof {
        assert(out@ =~= spec_uuid_hyphenated(namespace_id@) + seq![SEPARATOR]
            + spec_decimal_signed(t.year as int) + seq![SEPARATOR]);
    }
    push_decimal(&mut out, t.month);
    out.push(SEPARATOR);
    push_decimal(&mut out, t.day);
    out.push(SEPARATOR);
    proof {
        assert(out@ =~= spec_uuid_hyphenated(namespace_id@) + seq![SEPARATOR]
            + spec_decimal_signed(t.year as int) + seq![SEPARATOR] + spec_decimal(t.month as int)
            + seq![SEPARATOR] + spec_decimal(t.day as int) + seq![SEPARATOR]);
    }
    push_decimal(&mut out, t.hour);
    out.push(SEPARATOR);
    push_decimal(&mut out, t.minute);
    out.push(SEPARATOR);
    proof {
        assert(out@ =~= spec_uuid_hyphenated(namespace_id@) + seq![SEPARATOR]
            + spec_decimal_signed(t.year as int) + seq![SEPARATOR] + spec_decimal(t.month as int)
            + seq![SEPARATOR] + spec_decimal(t.day as int) + seq![SEPARATOR] + spec_decimal(
            t.hour as int,
        ) + seq![SEPARATOR] + spec_decimal(t.minute as int) + seq![SEPARATOR]);
    }
    push_decimal(&mut out, t.second);
    out.push(SEPARATOR);
    push_decimal(&mut out, t.nanosecond);
    out.push(SEPARATOR);
    out.push(102);
    out.push(105);
    out.push(108);
    out.push(101);
    out.push(46);
    out.push(100);
    out.push(97);
    out.push(116);
    out.push(97);
    proof {
        assert(out@ =~= spec_physical(namespace_id@, *t));
    }
    out
}

} // verus!
