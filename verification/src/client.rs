//! Client emitter: the decisions a logging client makes before anything
//! touches the socket. A record below the configured threshold is discarded;
//! one at or above it is serialized into a single byte sequence, which the
//! caller writes to the connection in one exclusive, uninterrupted write.

use vstd::prelude::*;

verus! {

use crate::codec::Header;
use crate::codec::Level;
use crate::codec::RecordV;
use crate::codec::encode;
use crate::codec::level_byte;
use crate::codec::spec_encode_record;

/// The most verbose severity a client still transmits; `Off` transmits
/// nothing.
#[derive(Clone, Copy, PartialEq, Eq, Structural, Debug)]
pub enum Threshold {
    Off,
    Error,
    Warn,
    Info,
    Debug,
    Trace,
}

/// The rank of a threshold: zero admits nothing, five admits everything.
pub open spec fn threshold_rank(t: Threshold) -> u8 {
    match t {
        Threshold::Off => 0,
        Threshold::Error => 1,
        Threshold::Warn => 2,
        Threshold::Info => 3,
        Threshold::Debug => 4,
        Threshold::Trace => 5,
    }
}

/// Whether a record of this severity passes the threshold.
pub open spec fn spec_enabled(t: Threshold, l: Level) -> bool {
    level_byte(l) <= threshold_rank(t)
}

/// Severity filtering, applied before any serialization work.
pub fn enabled(t: Threshold, l: Level) -> (r: bool)
    ensures
        r == spec_enabled(t, l),
{
    let rank: u8 = match t {
        Threshold::Off => 0,
        Threshold::Error => 1,
        Threshold::Warn => 2,
        Threshold::Info => 3,
        Threshold::Debug => 4,
        Threshold::Trace => 5,
    };
    let lb: u8 = crate::codec::level_to_byte(l);
    lb <= rank
}

/// Serializes one record for emission, or discards it when its severity does
/// not pass the threshold. The caller supplies the wall-clock timestamp and
/// the process and thread identifiers it captured, and writes the returned
/// bytes to the shared connection under one exclusive acquisition.
pub fn emit_bytes(
    t: Threshold,
    seconds: u64,
    nanos: u32,
    pid: i32,
    tid: u64,
    level: Level,
    message: &Vec<u8>,
) -> (r: Option<Vec<u8>>)
    ensures
        r is Some <==> spec_enabled(t, level),
        r matches Some(v) ==> v@ == spec_encode_record(
            (RecordV {
                header: Header {
                    seconds,
                    nanos,
                    pid,
                    tid,
                    length: message@.len() as u64,
                    level,
                },
                message: message@,
            }),
        ),
{
    if enabled(t, level) {
        Some(encode(seconds, nanos, pid, tid, level, message))
    } else {
        None
    }
}

} // verus!
