//! Wire record codec: the fixed 33-byte little-endian header followed by a
//! UTF-8 message payload of exactly `length` bytes.
//!
//! Header layout (offsets in bytes): seconds u64 at 0, nanos u32 at 8,
//! pid i32 at 12, tid u64 at 16, length u64 at 24, level u8 at 32.

use vstd::prelude::*;

verus! {

use vstd::bytes::spec_u32_from_le_bytes;
use vstd::bytes::spec_u32_to_le_bytes;
use vstd::bytes::spec_u64_from_le_bytes;
use vstd::bytes::spec_u64_to_le_bytes;
use vstd::bytes::u32_from_le_bytes;
use vstd::bytes::u32_to_le_bytes;
use vstd::bytes::u64_from_le_bytes;
use vstd::bytes::u64_to_le_bytes;
use vstd::bytes::lemma_auto_spec_u32_to_from_le_bytes;
use vstd::bytes::lemma_auto_spec_u64_to_from_le_bytes;
use vstd::slice::slice_subrange;

/// Size in bytes of the fixed wire header.
pub const HEADER_SIZE: usize = 33;

/// Default upper bound on the message payload length accepted by a server.
pub const DEFAULT_MAX_LENGTH: u64 = 16777216;

/// Number of nanoseconds in one second; `nanos` must stay below it.
pub const NANOS_PER_SECOND: u32 = 1000000000;

/// Severity of a log record, carried on the wire as one byte (1 to 5).
#[derive(Clone, Copy, PartialEq, Eq, Structural, Debug)]
pub enum Level {
    Error,
    Warn,
    Info,
    Debug,
    Trace,
}

/// The wire encoding of a severity.
pub open spec fn level_byte(l: Level) -> u8 {
    match l {
        Level::Error => 1,
        Level::Warn => 2,
        Level::Info => 3,
        Level::Debug => 4,
        Level::Trace => 5,
    }
}

/// The severity a wire byte stands for, if any.
pub open spec fn spec_level_of_byte(b: u8) -> Option<Level> {
    if b == 1 {
        Some(Level::Error)
    } else if b == 2 {
        Some(Level::Warn)
    } else if b == 3 {
        Some(Level::Info)
    } else if b == 4 {
        Some(Level::Debug)
    } else if b == 5 {
        Some(Level::Trace)
    } else {
        None
    }
}

/// Encodes a severity as its wire byte.
pub fn level_to_byte(l: Level) -> (b: u8)
    ensures
        b == level_byte(l),
{
    match l {
        Level::Error => 1,
        Level::Warn => 2,
        Level::Info => 3,
        Level::Debug => 4,
        Level::Trace => 5,
    }
}

/// Decodes a wire byte into a severity; bytes outside 1 to 5 are rejected.
pub fn level_of_byte(b: u8) -> (r: Option<Level>)
    ensures
        r == spec_level_of_byte(b),
{
    if b == 1 {
        Some(Level::Error)
    } else if b == 2 {
        Some(Level::Warn)
    } else if b == 3 {
        Some(Level::Info)
    } else if b == 4 {
        Some(Level::Debug)
    } else if b == 5 {
        Some(Level::Trace)
    } else {
        None
    }
}

/// Errors of the wire layer.
#[derive(Clone, Copy, PartialEq, Eq, Structural, Debug)]
pub enum WireError {
    /// A header field is out of range.
    MalformedHeader,
    /// A gathered payload is not valid UTF-8.
    BadUtf8,
}

/// The fixed-width fields that precede a message on the wire.
#[derive(Clone, Copy, PartialEq, Eq, Structural, Debug)]
pub struct Header {
    /// Whole seconds since the Unix epoch, client wall clock.
    pub seconds: u64,
    /// Sub-second nanosecond offset, below `NANOS_PER_SECOND`.
    pub nanos: u32,
    /// Originating process identifier.
    pub pid: i32,
    /// Originating thread identifier.
    pub tid: u64,
    /// Byte length of the message payload that follows the header.
    pub length: u64,
    /// Severity of the record.
    pub level: Level,
}

/// A whole wire record: its header and its payload bytes.
#[verifier::ext_equal]
pub ghost struct RecordV {
    pub header: Header,
    pub message: Seq<u8>,
}

/// A header all of whose fields are in range for a maximum payload length.
pub open spec fn header_wf(h: Header, max: u64) -> bool {
    &&& h.nanos < NANOS_PER_SECOND
    &&& h.length <= max
}

/// A record whose header is in range and whose payload has the announced length.
pub open spec fn record_wf(r: RecordV, max: u64) -> bool {
    &&& header_wf(r.header, max)
    &&& r.header.length == r.message.len()
}

/// The 33 header bytes, little-endian fields in wire order.
pub open spec fn spec_encode_header(h: Header) -> Seq<u8> {
    spec_u64_to_le_bytes(h.seconds) + spec_u32_to_le_bytes(h.nanos) + spec_u32_to_le_bytes(
        h.pid as u32,
    ) + spec_u64_to_le_bytes(h.tid) + spec_u64_to_le_bytes(h.length) + seq![level_byte(h.level)]
}

/// A whole record on the wire: header bytes, then the payload.
pub open spec fn spec_encode_record(r: RecordV) -> Seq<u8> {
    spec_encode_header(r.header) + r.message
}

/// What decoding 33 header bytes yields: the header, or `MalformedHeader`
/// when `nanos`, `length` or the level byte is out of range.
pub open spec fn spec_decode_header(b: Seq<u8>, max: u64) -> Result<Header, WireError> {
    let seconds = spec_u64_from_le_bytes(b.subrange(0, 8));
    let nanos = spec_u32_from_le_bytes(b.subrange(8, 12));
    let pid = spec_u32_from_le_bytes(b.subrange(12, 16)) as i32;
    let tid = spec_u64_from_le_bytes(b.subrange(16, 24));
    let length = spec_u64_from_le_bytes(b.subrange(24, 32));
    if nanos >= NANOS_PER_SECOND {
        Err(WireError::MalformedHeader)
    } else if length > max {
        Err(WireError::MalformedHeader)
    } else {
        match spec_level_of_byte(b[32]) {
            None => Err(WireError::MalformedHeader),
            Some(level) => Ok(
                (Header { seconds, nanos, pid, tid, length, level }),
            ),
        }
    }
}

/// Encodes header fields and a message into one wire record. The `length`
/// field is the byte length of `message`.
pub fn encode(
    seconds: u64,
    nanos: u32,
    pid: i32,
    tid: u64,
    level: Level,
    message: &Vec<u8>,
) -> (out: Vec<u8>)
    ensures
        out@ == spec_encode_record(
            (RecordV {
                header: Header {
                    seconds,
                    nanos,
                    pid,
                    tid,
                    length: message@.len() as u64,
                    level,
                },
                message: message@,
            }),
        ),
{
    let ghost h = Header { seconds, nanos, pid, tid, length: message@.len() as u64, level };
    let mut out = encode_header_fields(seconds, nanos, pid, tid, message.len() as u64, level);
    let mut payload = clone_bytes(message);
    out.append(&mut payload);
    proof {
        assert(out@ =~= spec_encode_header(h) + message@);
    }
    out
}

/// Encodes the six header fields as the 33 wire bytes.
pub fn encode_header_fields(
    seconds: u64,
    nanos: u32,
    pid: i32,
    tid: u64,
    length: u64,
    level: Level,
) -> (out: Vec<u8>)
    ensures
        out@ == spec_encode_header((Header { seconds, nanos, pid, tid, length, level })),
{
    let mut out = u64_to_le_bytes(seconds);
    let mut nb = u32_to_le_bytes(nanos);
    out.append(&mut nb);
    let mut pb = u32_to_le_bytes(pid as u32);
    out.append(&mut pb);
    let mut tb = u64_to_le_bytes(tid);
    out.append(&mut tb);
    let mut lb = u64_to_le_bytes(length);
    out.append(&mut lb);
    out.push(level_to_byte(level));
    proof {
        assert(out@ =~= spec_encode_header((Header { seconds, nanos, pid, tid, length, level })));
    }
    out
}

/// Copies a byte vector.
pub fn clone_bytes(v: &Vec<u8>) -> (out: Vec<u8>)
    ensures
        out@ == v@,
{
    let mut out: Vec<u8> = Vec::new();
    let mut i: usize = 0;
    while i < v.len()
        invariant
            i <= v@.len(),
            out@ == v@.take(i as int),
        decreases v@.len() - i,
    {
        out.push(v[i]);
        i = i + 1;
        proof {
            assert(out@ =~= v@.take(i as int));
        }
    }
    proof {
        assert(out@ =~= v@);
    }
    out
}

/// Decodes a 33-byte header, rejecting out-of-range fields with
/// `MalformedHeader`.
pub fn decode_header(bytes: &[u8], max: u64) -> (r: Result<Header, WireError>)
    requires
        bytes@.len() == HEADER_SIZE,
    ensures
        r == spec_decode_header(bytes@, max),
{
    let seconds = u64_from_le_bytes(slice_subrange(bytes, 0, 8));
    let nanos = u32_from_le_bytes(slice_subrange(bytes, 8, 12));
    let pid = u32_from_le_bytes(slice_subrange(bytes, 12, 16)) as i32;
    let tid = u64_from_le_bytes(slice_subrange(bytes, 16, 24));
    let length = u64_from_le_bytes(slice_subrange(bytes, 24, 32));
    let level_b = *vstd::slice::slice_index_get(bytes, 32);
    if nanos >= NANOS_PER_SECOND {
        Err(WireError::MalformedHeader)
    } else if length > max {
        Err(WireError::MalformedHeader)
    } else {
        match level_of_byte(level_b) {
            None => Err(WireError::MalformedHeader),
            Some(level) => Ok(Header { seconds, nanos, pid, tid, length, level }),
        }
    }
}

/// Law: decoding an encoded well-formed header yields the header back.
pub proof fn lemma_header_round_trip(h: Header, max: u64)
    requires
        header_wf(h, max),
    ensures
        spec_decode_header(spec_encode_header(h), max) == Ok::<Header, WireError>(h),
{
    lemma_auto_spec_u64_to_from_le_bytes();
    lemma_auto_spec_u32_to_from_le_bytes();
    let b = spec_encode_header(h);
    assert(b.subrange(0, 8) =~= spec_u64_to_le_bytes(h.seconds));
    assert(b.subrange(8, 12) =~= spec_u32_to_le_bytes(h.nanos));
    assert(b.subrange(12, 16) =~= spec_u32_to_le_bytes(h.pid as u32));
    assert(b.subrange(16, 24) =~= spec_u64_to_le_bytes(h.tid));
    assert(b.subrange(24, 32) =~= spec_u64_to_le_bytes(h.length));
    assert(b[32] == level_byte(h.level));
    let p = h.pid;
    assert((p as u32) as i32 == p) by (bit_vector);
}

/// Law: header rejection. Decoding 33 header bytes fails, with
/// `MalformedHeader`, exactly when the nanosecond field reaches a second,
/// the length exceeds the configured maximum, or the level byte is outside
/// one to five — and succeeds otherwise.
pub proof fn lemma_header_rejection(b: Seq<u8>, max: u64)
    requires
        b.len() == HEADER_SIZE,
    ensures
        spec_decode_header(b, max) == Err::<Header, WireError>(WireError::MalformedHeader) <==> {
            ||| spec_u32_from_le_bytes(b.subrange(8, 12)) >= NANOS_PER_SECOND
            ||| spec_u64_from_le_bytes(b.subrange(24, 32)) > max
            ||| spec_level_of_byte(b[32]) is None
        },
        spec_decode_header(b, max) is Err ==> spec_decode_header(b, max) == Err::<
            Header,
            WireError,
        >(WireError::MalformedHeader),
{
}

/// Law: decoding the header part of an encoded well-formed record yields its
/// header, and the bytes after the header are exactly its message.
pub proof fn lemma_record_round_trip(r: RecordV, max: u64)
    requires
        record_wf(r, max),
    ensures
        spec_encode_record(r).len() == HEADER_SIZE + r.message.len(),
        spec_decode_header(spec_encode_record(r).take(HEADER_SIZE as int), max) == Ok::<
            Header,
            WireError,
        >(r.header),
        spec_encode_record(r).skip(HEADER_SIZE as int) == r.message,
{
    lemma_auto_spec_u64_to_from_le_bytes();
    lemma_auto_spec_u32_to_from_le_bytes();
    assert(spec_encode_header(r.header).len() == HEADER_SIZE);
    lemma_header_round_trip(r.header, max);
    assert(spec_encode_record(r).take(HEADER_SIZE as int) =~= spec_encode_header(r.header));
    assert(spec_encode_record(r).skip(HEADER_SIZE as int) =~= r.message);
}

} // verus!
