//! Connection reader: reassembles wire records from the byte chunks a
//! non-blocking socket yields, resuming across partial reads. The reader is a
//! state machine: it awaits a header, then awaits that header's payload, and
//! ends closed (clean end between records) or failed (malformed header, bad
//! UTF-8, or an end mid-record).
//!
//! The stream model: `parse` says, for the whole byte sequence a connection
//! has delivered so far, which records are complete, which bytes remain, and
//! whether the stream is beyond repair.

use vstd::prelude::*;

verus! {

use vstd::utf8::valid_utf8;
use vstd::utf8::decode_utf8;
use vstd::utf8::encode_utf8;
use crate::codec::HEADER_SIZE;
use crate::codec::Header;
use crate::codec::RecordV;
use crate::codec::decode_header;
use crate::codec::lemma_record_round_trip;
use crate::codec::record_wf;
use crate::codec::spec_decode_header;
use crate::codec::spec_encode_record;
use crate::store::StoredLog;

/// One fully reassembled record, ready for the aggregation store.
pub struct LogEvent {
    pub pid: i32,
    pub tid: u64,
    pub log: StoredLog,
}

/// The wire record a delivered event stands for.
pub open spec fn event_record(e: LogEvent) -> RecordV {
    RecordV {
        header: Header {
            seconds: e.log.seconds,
            nanos: e.log.nanos,
            pid: e.pid,
            tid: e.tid,
            length: encode_utf8(e.log.message@).len() as u64,
            level: e.log.level,
        },
        message: encode_utf8(e.log.message@),
    }
}

/// Outcome of reading a byte stream: the complete records, the unconsumed
/// tail, and whether the stream has failed for good.
#[verifier::ext_equal]
pub ghost struct ParseOut {
    pub records: Seq<RecordV>,
    pub rest: Seq<u8>,
    pub failed: bool,
}

/// Splits a delivered byte sequence into complete records. A malformed
/// header or an invalid payload fails the stream; everything after the
/// failure point is ignored.
pub open spec fn parse(bytes: Seq<u8>, max: u64) -> ParseOut
    decreases bytes.len(),
{
    let hs = HEADER_SIZE as int;
    if bytes.len() < hs {
        ParseOut { records: Seq::empty(), rest: bytes, failed: false }
    } else {
        match spec_decode_header(bytes.take(hs), max) {
            Result::Err(_) => ParseOut { records: Seq::empty(), rest: bytes, failed: true },
            Result::Ok(h) => {
                if bytes.len() - hs < h.length {
                    ParseOut { records: Seq::empty(), rest: bytes, failed: false }
                } else {
                    let msg = bytes.subrange(hs, hs + h.length as int);
                    if valid_utf8(msg) {
                        let tail = parse(bytes.skip(hs + h.length as int), max);
                        ParseOut {
                            records: seq![RecordV { header: h, message: msg }] + tail.records,
                            rest: tail.rest,
                            failed: tail.failed,
                        }
                    } else {
                        ParseOut { records: Seq::empty(), rest: bytes, failed: true }
                    }
                }
            },
        }
    }
}

/// Once failed, a stream stays failed and yields no further records,
/// whatever else arrives.
pub proof fn lemma_parse_failed_extend(s: Seq<u8>, t: Seq<u8>, max: u64)
    requires
        parse(s, max).failed,
    ensures
        parse(s + t, max).failed,
        parse(s + t, max).records == parse(s, max).records,
    decreases s.len(),
{
    let hs = HEADER_SIZE as int;
    let st = s + t;
    assert(s.len() >= hs);
    assert(st.take(hs) =~= s.take(hs));
    match spec_decode_header(s.take(hs), max) {
        Result::Err(_) => {},
        Result::Ok(h) => {
            assert(s.len() - hs >= h.length);
            let k = hs + h.length as int;
            let msg = s.subrange(hs, k);
            assert(st.subrange(hs, k) =~= msg);
            if valid_utf8(msg) {
                assert(st.skip(k) =~= s.skip(k) + t);
                lemma_parse_failed_extend(s.skip(k), t, max);
                assert(parse(st, max).records =~~= parse(s, max).records);
            }
        },
    }
}

/// How one more byte advances an unfailed stream: it extends the pending
/// tail, and exactly when it completes a header of length zero or the last
/// payload byte, one record is emitted (or the stream fails).
pub proof fn lemma_parse_step(s: Seq<u8>, b: u8, max: u64)
    requires
        !parse(s, max).failed,
    ensures
        ({
            let hs = HEADER_SIZE as int;
            let p = parse(s, max);
            let q = parse(s + seq![b], max);
            let r = p.rest.push(b);
            &&& (r.len() < hs ==> q == (ParseOut { records: p.records, rest: r, failed: false }))
            &&& (r.len() == hs ==> (match spec_decode_header(r, max) {
                Result::Err(_) => q.failed && q.records == p.records,
                Result::Ok(h) => {
                    if h.length == 0 {
                        q == (ParseOut {
                            records: p.records.push((RecordV { header: h, message: Seq::empty() })),
                            rest: Seq::<u8>::empty(),
                            failed: false,
                        })
                    } else {
                        q == (ParseOut { records: p.records, rest: r, failed: false })
                    }
                },
            }))
            &&& (r.len() > hs ==> (match spec_decode_header(r.take(hs), max) {
                Result::Ok(h) => {
                    if r.len() - hs == h.length {
                        if valid_utf8(r.skip(hs)) {
                            q == (ParseOut {
                                records: p.records.push((RecordV { header: h, message: r.skip(hs) })),
                                rest: Seq::<u8>::empty(),
                                failed: false,
                            })
                        } else {
                            q.failed && q.records == p.records
                        }
                    } else {
                        q == (ParseOut { records: p.records, rest: r, failed: false })
                    }
                },
                Result::Err(_) => true,
            }))
        }),
    decreases s.len(),
{
    let hs = HEADER_SIZE as int;
    let p = parse(s, max);
    let st = s + seq![b];
    let q = parse(st, max);
    let r = p.rest.push(b);
    if s.len() < hs {
        assert(r =~= st);
        if st.len() < hs {
            assert(q =~~= (ParseOut { records: p.records, rest: r, failed: false }));
        } else {
            assert(st.len() == hs);
            assert(st.take(hs) =~= r);
            match spec_decode_header(r, max) {
                Result::Err(_) => {},
                Result::Ok(h) => {
                    if h.length == 0 {
                        assert(st.subrange(hs, hs) =~= Seq::<u8>::empty());
                        assert(valid_utf8(Seq::<u8>::empty()));
                        assert(st.skip(hs) =~= Seq::<u8>::empty());
                        assert(parse(Seq::<u8>::empty(), max).records =~= Seq::<RecordV>::empty());
                        assert(q.records =~~= p.records.push(
                            (RecordV { header: h, message: Seq::<u8>::empty() }),
                        ));
                        assert(q =~~= (ParseOut {
                            records: p.records.push(
                                (RecordV { header: h, message: Seq::<u8>::empty() }),
                            ),
                            rest: Seq::<u8>::empty(),
                            failed: false,
                        }));
                    } else {
                        assert(q =~~= (ParseOut { records: p.records, rest: r, failed: false }));
                    }
                },
            }
        }
    } else {
        assert(st.take(hs) =~= s.take(hs));
        match spec_decode_header(s.take(hs), max) {
            Result::Err(_) => {
                assert(false);
            },
            Result::Ok(h) => {
                if s.len() - hs < h.length {
                    // The whole of s is the pending tail.
                    assert(p.rest == s);
                    assert(r =~= st);
                    assert(st.len() > hs);
                    assert(r.take(hs) =~= s.take(hs));
                    if st.len() - hs == h.length {
                        let msg = st.subrange(hs, hs + h.length as int);
                        assert(msg =~= r.skip(hs));
                        if valid_utf8(msg) {
                            assert(st.skip(hs + h.length as int) =~= Seq::<u8>::empty());
                            assert(parse(Seq::<u8>::empty(), max).records
                                =~= Seq::<RecordV>::empty());
                            assert(q.records =~~= p.records.push(
                                (RecordV { header: h, message: r.skip(hs) }),
                            ));
                            assert(q =~~= (ParseOut {
                                records: p.records.push(
                                    (RecordV { header: h, message: r.skip(hs) }),
                                ),
                                rest: Seq::<u8>::empty(),
                                failed: false,
                            }));
                        }
                    } else {
                        assert(st.len() - hs < h.length);
                        assert(q =~~= (ParseOut { records: p.records, rest: r, failed: false }));
                    }
                } else {
                    // A complete record sits at the front of both streams.
                    let k = hs + h.length as int;
                    let msg = s.subrange(hs, k);
                    assert(st.subrange(hs, k) =~= msg);
                    if valid_utf8(msg) {
                        let s2 = s.skip(k);
                        assert(st.skip(k) =~= s2 + seq![b]);
                        let p2 = parse(s2, max);
                        assert(!p2.failed);
                        lemma_parse_step(s2, b, max);
                        let q2 = parse(s2 + seq![b], max);
                        let rec0 = RecordV { header: h, message: msg };
                        assert(p.records == seq![rec0] + p2.records);
                        assert(p.rest == p2.rest);
                        assert(q.records == seq![rec0] + q2.records);
                        assert(q.rest == q2.rest);
                        assert(q.failed == q2.failed);
                        let r2 = p2.rest.push(b);
                        assert(r2 == r);
                        if r.len() < hs {
                            assert(seq![rec0] + p2.records =~= p.records);
                            assert(q =~~= (ParseOut {
                                records: p.records,
                                rest: r,
                                failed: false,
                            }));
                        } else if r.len() == hs {
                            match spec_decode_header(r, max) {
                                Result::Err(_) => {},
                                Result::Ok(h2) => {
                                    if h2.length == 0 {
                                        assert(seq![rec0] + p2.records.push(
                                            (RecordV { header: h2, message: Seq::<u8>::empty() }),
                                        ) =~= p.records.push(
                                            (RecordV { header: h2, message: Seq::<u8>::empty() }),
                                        ));
                                        assert(q =~~= (ParseOut {
                                            records: p.records.push(
                                                (RecordV {
                                                    header: h2,
                                                    message: Seq::<u8>::empty(),
                                                }),
                                            ),
                                            rest: Seq::<u8>::empty(),
                                            failed: false,
                                        }));
                                    } else {
                                        assert(q =~~= (ParseOut {
                                            records: p.records,
                                            rest: r,
                                            failed: false,
                                        }));
                                    }
                                },
                            }
                        } else {
                            match spec_decode_header(r.take(hs), max) {
                                Result::Err(_) => {},
                                Result::Ok(h2) => {
                                    if r.len() - hs == h2.length {
                                        if valid_utf8(r.skip(hs)) {
                                            assert(seq![rec0] + p2.records.push(
                                                (RecordV { header: h2, message: r.skip(hs) }),
                                            ) =~= p.records.push(
                                                (RecordV { header: h2, message: r.skip(hs) }),
                                            ));
                                            assert(q =~~= (ParseOut {
                                                records: p.records.push(
                                                    (RecordV { header: h2, message: r.skip(hs) }),
                                                ),
                                                rest: Seq::<u8>::empty(),
                                                failed: false,
                                            }));
                                        }
                                    } else {
                                        assert(q =~~= (ParseOut {
                                            records: p.records,
                                            rest: r,
                                            failed: false,
                                        }));
                                    }
                                },
                            }
                        }
                    }
                }
            },
        }
    }
}

/// Relies on `String::from_utf8`: it returns the string of exactly the given
/// bytes when they are valid UTF-8, and rejects them otherwise.
#[verifier::external_body]
fn utf8_to_string(bytes: &Vec<u8>) -> (r: Option<String>)
    ensures
        r is Some <==> valid_utf8(bytes@),
        r matches Some(s) ==> s@ == decode_utf8(bytes@),
{
    String::from_utf8(bytes.clone()).ok()
}

/// Where a reader stands between bytes.
#[derive(Clone, Copy, PartialEq, Eq, Structural, Debug)]
pub enum Phase {
    /// Gathering the 33 header bytes of the next record.
    AwaitHeader,
    /// Gathering the payload announced by this header.
    AwaitPayload(Header),
    /// The peer closed cleanly on a record boundary.
    Closed,
    /// Malformed header, invalid payload, or closed mid-record.
    Failed,
}

/// Reassembles records from the chunks one connection delivers. The ghost
/// `stream` holds every byte fed so far; the well-formedness invariant says
/// the buffers and phase are exactly the state `parse` ascribes to it.
pub struct Reader {
    /// Upper bound accepted for a record's payload length.
    pub max: u64,
    pub phase: Phase,
    /// Partial header bytes while awaiting a header.
    pub header_buf: Vec<u8>,
    /// Partial payload bytes while awaiting a payload.
    pub payload_buf: Vec<u8>,
    /// All bytes this reader has been fed.
    pub stream: Ghost<Seq<u8>>,
}

impl Reader {
    /// The buffers and phase agree with the parse of everything fed so far.
    pub open spec fn wf(self) -> bool {
        let hs = HEADER_SIZE as int;
        let p = parse(self.stream@, self.max);
        &&& !p.failed
        &&& if p.rest.len() < hs {
            &&& self.phase == Phase::AwaitHeader
            &&& self.header_buf@ == p.rest
        } else {
            &&& (spec_decode_header(p.rest.take(hs), self.max) matches Ok(h) && self.phase
                == Phase::AwaitPayload(h) && p.rest.len() - hs < h.length)
            &&& self.payload_buf@ == p.rest.skip(hs)
        }
    }

    /// A fresh reader for one connection.
    pub fn new(max: u64) -> (r: Reader)
        ensures
            r.wf(),
            r.stream@ == Seq::<u8>::empty(),
            r.max == max,
            r.phase == Phase::AwaitHeader,
    {
        Reader {
            max,
            phase: Phase::AwaitHeader,
            header_buf: Vec::new(),
            payload_buf: Vec::new(),
            stream: Ghost(Seq::empty()),
        }
    }

    /// True once the stream has failed for good.
    pub fn is_failed(&self) -> (r: bool)
        ensures
            r == (self.phase is Failed),
    {
        match self.phase {
            Phase::Failed => true,
            _ => false,
        }
    }

    /// Consumes one chunk of bytes and returns the records it completes, in
    /// arrival order: exactly the records the whole stream's parse gained.
    /// On a malformed header or an invalid payload the reader fails and
    /// ignores the rest of the chunk.
    pub fn feed(&mut self, chunk: &[u8]) -> (events: Vec<LogEvent>)
        requires
            old(self).wf(),
        ensures
            final(self).max == old(self).max,
            final(self).stream@ == old(self).stream@ + chunk@,
            parse(final(self).stream@, final(self).max).records == parse(
                old(self).stream@,
                old(self).max,
            ).records + events@.map_values(|e: LogEvent| event_record(e)),
            !parse(final(self).stream@, final(self).max).failed ==> final(self).wf(),
            parse(final(self).stream@, final(self).max).failed ==> final(self).phase is Failed,
    {
        let ghost s0 = self.stream@;
        let ghost max = self.max;
        let mut events: Vec<LogEvent> = Vec::new();
        let mut i: usize = 0;
        proof {
            assert(s0 + chunk@.take(0) =~= s0);
            assert(events@.map_values(|e: LogEvent| event_record(e)) =~= Seq::<RecordV>::empty());
        }
        while i < chunk.len()
            invariant
                i <= chunk@.len(),
                s0 == old(self).stream@,
                max == old(self).max,
                self.max == max,
                self.stream@ == s0 + chunk@.take(i as int),
                self.wf(),
                !parse(s0, max).failed,
                parse(self.stream@, max).records == parse(s0, max).records + events@.map_values(
                    |e: LogEvent| event_record(e),
                ),
            decreases chunk@.len() - i,
        {
            let b = *vstd::slice::slice_index_get(chunk, i);
            let ghost s_pre = self.stream@;
            proof {
                lemma_parse_step(s_pre, b, max);
                assert(s_pre + seq![b] =~= s0 + chunk@.take(i as int + 1));
            }
            self.stream = Ghost(s_pre + seq![b]);
            let ghost p_pre = parse(s_pre, max);
            let ghost r = p_pre.rest.push(b);
            let phase = self.phase;
            match phase {
                Phase::AwaitHeader => {
                    self.header_buf.push(b);
                    proof {
                        assert(self.header_buf@ == r);
                    }
                    if self.header_buf.len() == HEADER_SIZE {
                        match decode_header(self.header_buf.as_slice(), self.max) {
                            Ok(h) => {
                                self.header_buf.clear();
                                if h.length == 0 {
                                    let message = String::new();
                                    let ev = LogEvent {
                                        pid: h.pid,
                                        tid: h.tid,
                                        log: StoredLog {
                                            seconds: h.seconds,
                                            nanos: h.nanos,
                                            level: h.level,
                                            message,
                                        },
                                    };
                                    proof {
                                        assert(encode_utf8(Seq::<char>::empty())
                                            =~= Seq::<u8>::empty());
                                        assert(event_record(ev) =~~= (RecordV {
                                            header: h,
                                            message: Seq::<u8>::empty(),
                                        }));
                                        lemma_map_values_push(
                                            events@,
                                            ev,
                                            event_record(ev),
                                        );
                                        assert(parse(s0, max).records + events@.map_values(
                                            |e: LogEvent| event_record(e),
                                        ).push(event_record(ev)) =~= (parse(s0, max).records
                                            + events@.map_values(
                                            |e: LogEvent| event_record(e),
                                        )).push(event_record(ev)));
                                    }
                                    events.push(ev);
                                } else {
                                    self.phase = Phase::AwaitPayload(h);
                                    self.payload_buf.clear();
                                    proof {
                                        assert(r.take(HEADER_SIZE as int) =~= r);
                                        assert(r.skip(HEADER_SIZE as int) =~= Seq::<u8>::empty());
                                    }
                                }
                            },
                            Err(_) => {
                                self.phase = Phase::Failed;
                                proof {
                                    lemma_parse_failed_extend(
                                        s_pre + seq![b],
                                        chunk@.skip(i as int + 1),
                                        max,
                                    );
                                    assert((s_pre + seq![b]) + chunk@.skip(i as int + 1) =~= s0
                                        + chunk@);
                                }
                                self.stream = Ghost(s0 + chunk@);
                                return events;
                            },
                        }
                    }
                },
                Phase::AwaitPayload(h) => {
                    self.payload_buf.push(b);
                    proof {
                        assert(self.payload_buf@ =~= r.skip(HEADER_SIZE as int));
                        assert(r.take(HEADER_SIZE as int) =~= p_pre.rest.take(HEADER_SIZE as int));
                    }
                    if self.payload_buf.len() as u64 == h.length {
                        match utf8_to_string(&self.payload_buf) {
                            Some(message) => {
                                let ev = LogEvent {
                                    pid: h.pid,
                                    tid: h.tid,
                                    log: StoredLog {
                                        seconds: h.seconds,
                                        nanos: h.nanos,
                                        level: h.level,
                                        message,
                                    },
                                };
                                proof {
                                    vstd::utf8::decode_utf8_encode_utf8(r.skip(HEADER_SIZE as int));
                                    assert(event_record(ev) =~~= (RecordV {
                                        header: h,
                                        message: r.skip(HEADER_SIZE as int),
                                    }));
                                    lemma_map_values_push(events@, ev, event_record(ev));
                                    assert(parse(s0, max).records + events@.map_values(
                                        |e: LogEvent| event_record(e),
                                    ).push(event_record(ev)) =~= (parse(s0, max).records
                                        + events@.map_values(
                                        |e: LogEvent| event_record(e),
                                    )).push(event_record(ev)));
                                }
                                events.push(ev);
                                self.phase = Phase::AwaitHeader;
                                self.payload_buf.clear();
                                self.header_buf.clear();
                            },
                            None => {
                                self.phase = Phase::Failed;
                                proof {
                                    lemma_parse_failed_extend(
                                        s_pre + seq![b],
                                        chunk@.skip(i as int + 1),
                                        max,
                                    );
                                    assert((s_pre + seq![b]) + chunk@.skip(i as int + 1) =~= s0
                                        + chunk@);
                                }
                                self.stream = Ghost(s0 + chunk@);
                                return events;
                            },
                        }
                    }
                },
                Phase::Closed => {
                    proof {
                        assert(false);
                    }
                },
                Phase::Failed => {
                    proof {
                        assert(false);
                    }
                },
            }
            i = i + 1;
        }
        proof {
            assert(s0 + chunk@.take(chunk@.len() as int) =~= s0 + chunk@);
        }
        events
    }

    /// The peer closed the connection: a clean end exactly on a record
    /// boundary, a failure anywhere else.
    pub fn close(&mut self)
        requires
            old(self).wf(),
        ensures
            final(self).stream@ == old(self).stream@,
            final(self).max == old(self).max,
            parse(old(self).stream@, old(self).max).rest.len() == 0 ==> final(self).phase
                is Closed,
            parse(old(self).stream@, old(self).max).rest.len() > 0 ==> final(self).phase
                is Failed,
    {
        let clean = match self.phase {
            Phase::AwaitHeader => self.header_buf.len() == 0,
            _ => false,
        };
        if clean {
            self.phase = Phase::Closed;
        } else {
            self.phase = Phase::Failed;
        }
    }
}

proof fn lemma_map_values_push(events: Seq<LogEvent>, ev: LogEvent, rec: RecordV)
    requires
        event_record(ev) == rec,
    ensures
        events.push(ev).map_values(|e: LogEvent| event_record(e)) == events.map_values(
            |e: LogEvent| event_record(e),
        ).push(rec),
{
    assert(events.push(ev).map_values(|e: LogEvent| event_record(e)) =~= events.map_values(
        |e: LogEvent| event_record(e),
    ).push(rec));
}

/// Maps a non-blocking read result: a would-block error counts as a read of
/// zero bytes; any other error is passed through unchanged.
pub fn non_blocking(res: Result<usize, std::io::Error>) -> (r: Result<usize, std::io::Error>)
    ensures
        res matches Ok(n) ==> r matches Ok(m) && m == n,
        res matches Err(e) ==> (if spec_would_block(e) {
            r matches Ok(m) && m == 0
        } else {
            r matches Err(e2) && e2 == e
        }),
{
    match res {
        Ok(n) => Ok(n),
        Err(e) => if is_would_block(&e) {
            Ok(0)
        } else {
            Err(e)
        },
    }
}

/// The bytes of a sequence of records, encoded back to back.
pub open spec fn concat_encodings(rs: Seq<RecordV>) -> Seq<u8>
    decreases rs.len(),
{
    if rs.len() == 0 {
        Seq::empty()
    } else {
        spec_encode_record(rs[0]) + concat_encodings(rs.drop_first())
    }
}

/// Law: per-lane FIFO on the wire. A stream carrying exactly the encodings
/// of well-formed records, back to back and in order, parses to exactly
/// those records, in order, with nothing left over and no failure.
pub proof fn lemma_parse_encoded_records(rs: Seq<RecordV>, max: u64)
    requires
        forall|i: int| 0 <= i < rs.len() ==> record_wf(#[trigger] rs[i], max),
        forall|i: int| 0 <= i < rs.len() ==> valid_utf8((#[trigger] rs[i]).message),
    ensures
        parse(concat_encodings(rs), max) == (ParseOut {
            records: rs,
            rest: Seq::<u8>::empty(),
            failed: false,
        }),
    decreases rs.len(),
{
    let hs = HEADER_SIZE as int;
    if rs.len() == 0 {
        assert(parse(concat_encodings(rs), max) =~~= (ParseOut {
            records: rs,
            rest: Seq::<u8>::empty(),
            failed: false,
        }));
    } else {
        let r0 = rs[0];
        let bytes = concat_encodings(rs);
        let enc0 = spec_encode_record(r0);
        lemma_record_round_trip(r0, max);
        assert(bytes.take(hs) =~= enc0.take(hs));
        assert(bytes.subrange(hs, hs + r0.header.length as int) =~= r0.message);
        assert(bytes.skip(hs + r0.header.length as int) =~= concat_encodings(rs.drop_first()));
        lemma_parse_encoded_records(rs.drop_first(), max);
        assert(seq![RecordV { header: r0.header, message: r0.message }] + rs.drop_first() =~~= rs);
        assert(parse(bytes, max) =~~= (ParseOut {
            records: rs,
            rest: Seq::<u8>::empty(),
            failed: false,
        }));
    }
}

#[verifier::external_type_specification]
#[verifier::external_body]
pub struct ExIoError(std::io::Error);

/// Whether an error is the kernel's would-block signal: a property of the
/// error value alone.
pub uninterp spec fn spec_would_block(e: std::io::Error) -> bool;

/// Relies on `std::io::Error::kind`: recognizes a read that would block.
/// Which kind an error carries is fixed by the error value itself.
#[verifier::external_body]
fn is_would_block(e: &std::io::Error) -> (r: bool)
    ensures
        r == spec_would_block(*e),
{
    e.kind() == std::io::ErrorKind::WouldBlock
}

} // verus!
