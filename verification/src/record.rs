//! The binary framing of log records.
//!
//! A record is laid out without padding, integers little-endian:
//!
//! ```text
//! u8   tag            1 = insert, 2 = delete
//! u64  timestamp      seconds since the Unix epoch
//! u32  id length      then that many bytes of UTF-8
//! u32  payload length then that many bytes of UTF-8 (JSON); 0 means no payload
//! ```
//!
//! There is no checksum and no envelope, so a log can only be read up to its
//! first record that does not parse.

use vstd::prelude::*;
use vstd::bytes::*;
use vstd::slice::*;
use vstd::string::*;
use vstd::utf8::*;

verus! {

/// The kind of a log record.
#[derive(Clone, Copy, Debug, PartialEq, Eq, Structural)]
pub enum Operation {
    Insert,
    Delete,
}

impl Operation {
    /// The byte that stands for this kind on disk.
    pub open spec fn tag(self) -> u8 {
        match self {
            Operation::Insert => 1,
            Operation::Delete => 2,
        }
    }

    /// The byte that stands for this kind on disk.
    pub fn as_u8(self) -> (b: u8)
        ensures
            b == self.tag(),
    {
        match self {
            Operation::Insert => 1,
            Operation::Delete => 2,
        }
    }

    /// The kind that `value` stands for; only 1 and 2 stand for one.
    pub fn from_u8(value: u8) -> (r: Option<Operation>)
        ensures
            r == Operation::of_tag(value),
    {
        if value == 1 {
            Some(Operation::Insert)
        } else if value == 2 {
            Some(Operation::Delete)
        } else {
            None
        }
    }

    /// The kind that `value` stands for; only 1 and 2 stand for one.
    pub open spec fn of_tag(value: u8) -> Option<Operation> {
        if value == 1 {
            Some(Operation::Insert)
        } else if value == 2 {
            Some(Operation::Delete)
        } else {
            None
        }
    }
}

/// A log record as it is framed on disk; the payload is JSON text that
/// this module carries without reading it.
#[derive(Debug)]
pub struct RecordFrame {
    pub operation: Operation,
    pub timestamp: u64,
    pub item_id: String,
    pub payload: String,
}

/// What a `RecordFrame` holds, as mathematical values.
pub struct FrameView {
    pub operation: Operation,
    pub timestamp: u64,
    pub item_id: Seq<char>,
    pub payload: Seq<char>,
}

impl View for RecordFrame {
    type V = FrameView;

    open spec fn view(&self) -> FrameView {
        FrameView {
            operation: self.operation,
            timestamp: self.timestamp,
            item_id: self.item_id@,
            payload: self.payload@,
        }
    }
}

impl DeepView for RecordFrame {
    type V = FrameView;

    open spec fn deep_view(&self) -> FrameView {
        self@
    }
}

impl Clone for RecordFrame {
    fn clone(&self) -> (r: Self)
        ensures
            r@ == self@,
    {
        RecordFrame {
            operation: self.operation,
            timestamp: self.timestamp,
            item_id: self.item_id.clone(),
            payload: self.payload.clone(),
        }
    }
}

/// Why bytes could not be read as a record, or a record not be framed.
#[derive(Clone, Copy, Debug, PartialEq, Eq, Structural)]
pub enum CodecError {
    /// The bytes end before the record does.
    UnexpectedEof,
    /// The first byte is neither 1 nor 2.
    InvalidTag,
    /// The id or the payload is not UTF-8.
    InvalidUtf8,
    /// The id or the payload is longer than a 32-bit length can say.
    FieldTooLong,
}

/// The id and the payload of `f` are short enough for their length fields.
pub open spec fn encodable(f: FrameView) -> bool {
    encode_utf8(f.item_id).len() <= u32::MAX && encode_utf8(f.payload).len() <= u32::MAX
}

/// The bytes that frame `f`.
pub open spec fn frame_bytes(f: FrameView) -> Seq<u8> {
    seq![f.operation.tag()] + spec_u64_to_le_bytes(f.timestamp) + spec_u32_to_le_bytes(
        encode_utf8(f.item_id).len() as u32,
    ) + encode_utf8(f.item_id) + spec_u32_to_le_bytes(encode_utf8(f.payload).len() as u32)
        + encode_utf8(f.payload)
}

/// Reads one record from the front of `b`: the record and the number of
/// bytes it takes, or the first thing that is wrong with `b`.
pub open spec fn parse_frame(b: Seq<u8>) -> Result<(FrameView, int), CodecError> {
    if b.len() < 1 {
        Err(CodecError::UnexpectedEof)
    } else if Operation::of_tag(b[0]) is None {
        Err(CodecError::InvalidTag)
    } else if b.len() < 13 {
        Err(CodecError::UnexpectedEof)
    } else {
        let id_len = spec_u32_from_le_bytes(b.subrange(9, 13)) as int;
        if b.len() < 13 + id_len {
            Err(CodecError::UnexpectedEof)
        } else if !valid_utf8(b.subrange(13, 13 + id_len)) {
            Err(CodecError::InvalidUtf8)
        } else if b.len() < 17 + id_len {
            Err(CodecError::UnexpectedEof)
        } else {
            let payload_len = spec_u32_from_le_bytes(b.subrange(13 + id_len, 17 + id_len)) as int;
            if b.len() < 17 + id_len + payload_len {
                Err(CodecError::UnexpectedEof)
            } else if !valid_utf8(b.subrange(17 + id_len, 17 + id_len + payload_len)) {
                Err(CodecError::InvalidUtf8)
            } else {
                Ok(
                    (
                        FrameView {
                            operation: Operation::of_tag(b[0])->0,
                            timestamp: spec_u64_from_le_bytes(b.subrange(1, 9)),
                            item_id: decode_utf8(b.subrange(13, 13 + id_len)),
                            payload: decode_utf8(
                                b.subrange(17 + id_len, 17 + id_len + payload_len),
                            ),
                        },
                        17 + id_len + payload_len,
                    ),
                )
            }
        }
    }
}

/// The records that can be read from `b` one after the other, up to the
/// end of `b` or to the first record that does not parse.
pub open spec fn parse_log(b: Seq<u8>) -> Seq<FrameView>
    decreases b.len(),
{
    match parse_frame(b) {
        Ok((f, n)) => if 0 < n <= b.len() {
            seq![f] + parse_log(b.skip(n))
        } else {
            Seq::empty()
        },
        Err(_) => Seq::empty(),
    }
}

/// The number of bytes at the front of `b` that `parse_log` reads as records.
pub open spec fn parsed_len(b: Seq<u8>) -> int
    decreases b.len(),
{
    match parse_frame(b) {
        Ok((f, n)) => if 0 < n <= b.len() {
            n + parsed_len(b.skip(n))
        } else {
            0
        },
        Err(_) => 0,
    }
}

/// The bytes of the records `frames`, one after the other.
pub open spec fn log_bytes(frames: Seq<FrameView>) -> Seq<u8>
    decreases frames.len(),
{
    if frames.len() == 0 {
        Seq::empty()
    } else {
        frame_bytes(frames[0]) + log_bytes(frames.drop_first())
    }
}

/// Wraps `String::from_utf8`: the bytes become a string exactly when they
/// are well-formed UTF-8, and the string then holds the characters they encode.
#[verifier::external_body]
fn string_from_utf8(bytes: Vec<u8>) -> (r: Option<String>)
    ensures
        r is Some <==> valid_utf8(bytes@),
        r matches Some(s) ==> s@ == decode_utf8(bytes@),
{
    String::from_utf8(bytes).ok()
}

/// The parts of `frame_bytes(f)`, by position.
pub proof fn lemma_frame_layout(f: FrameView, tail: Seq<u8>)
    requires
        encodable(f),
    ensures
        ({
            let b = frame_bytes(f) + tail;
            let id_len = encode_utf8(f.item_id).len() as int;
            let payload_len = encode_utf8(f.payload).len() as int;
            &&& frame_bytes(f).len() == 17 + id_len + payload_len
            &&& b[0] == f.operation.tag()
            &&& b.subrange(1, 9) == spec_u64_to_le_bytes(f.timestamp)
            &&& b.subrange(9, 13) == spec_u32_to_le_bytes(id_len as u32)
            &&& b.subrange(13, 13 + id_len) == encode_utf8(f.item_id)
            &&& b.subrange(13 + id_len, 17 + id_len) == spec_u32_to_le_bytes(payload_len as u32)
            &&& b.subrange(17 + id_len, 17 + id_len + payload_len) == encode_utf8(f.payload)
            &&& b.skip(17 + id_len + payload_len) == tail
        }),
{
    lemma_auto_spec_u64_to_from_le_bytes();
    lemma_auto_spec_u32_to_from_le_bytes();
    let b = frame_bytes(f) + tail;
    let id_len = encode_utf8(f.item_id).len() as int;
    let payload_len = encode_utf8(f.payload).len() as int;
    assert(spec_u64_to_le_bytes(f.timestamp).len() == 8);
    assert(spec_u32_to_le_bytes(id_len as u32).len() == 4);
    assert(spec_u32_to_le_bytes(payload_len as u32).len() == 4);
    assert(b.subrange(1, 9) =~= spec_u64_to_le_bytes(f.timestamp));
    assert(b.subrange(9, 13) =~= spec_u32_to_le_bytes(id_len as u32));
    assert(b.subrange(13, 13 + id_len) =~= encode_utf8(f.item_id));
    assert(b.subrange(13 + id_len, 17 + id_len) =~= spec_u32_to_le_bytes(payload_len as u32));
    assert(b.subrange(17 + id_len, 17 + id_len + payload_len) =~= encode_utf8(f.payload));
    assert(b.skip(17 + id_len + payload_len) =~= tail);
}

/// A framed record is read back field for field, whatever follows it.
pub proof fn lemma_frame_roundtrip(f: FrameView, tail: Seq<u8>)
    requires
        encodable(f),
    ensures
        parse_frame(frame_bytes(f) + tail) == Ok::<(FrameView, int), CodecError>(
            (f, frame_bytes(f).len() as int),
        ),
{
    lemma_frame_layout(f, tail);
    lemma_auto_spec_u64_to_from_le_bytes();
    lemma_auto_spec_u32_to_from_le_bytes();
    encode_utf8_valid_utf8(f.item_id);
    encode_utf8_valid_utf8(f.payload);
    encode_utf8_decode_utf8(f.item_id);
    encode_utf8_decode_utf8(f.payload);
    let b = frame_bytes(f) + tail;
    let id_len = encode_utf8(f.item_id).len() as int;
    let payload_len = encode_utf8(f.payload).len() as int;
    assert(spec_u32_from_le_bytes(b.subrange(9, 13)) == id_len as u32);
    assert(spec_u32_from_le_bytes(b.subrange(13 + id_len, 17 + id_len)) == payload_len as u32);
    assert(Operation::of_tag(b[0]) == Some(f.operation));
    let parsed = parse_frame(b)->Ok_0;
    assert(parse_frame(b) is Ok);
    assert(parsed.0.operation == f.operation);
    assert(parsed.0.timestamp == f.timestamp);
    assert(parsed.0.item_id == f.item_id);
    assert(parsed.0.payload == f.payload);
}

/// A log written record after record is read back as those records.
pub proof fn lemma_log_roundtrip(frames: Seq<FrameView>)
    requires
        forall|i: int| 0 <= i < frames.len() ==> encodable(#[trigger] frames[i]),
    ensures
        parse_log(log_bytes(frames)) == frames,
        parsed_len(log_bytes(frames)) == log_bytes(frames).len(),
    decreases frames.len(),
{
    if frames.len() == 0 {
        assert(parse_log(log_bytes(frames)) =~= frames);
    } else {
        let f = frames[0];
        let rest = frames.drop_first();
        lemma_frame_roundtrip(f, log_bytes(rest));
        lemma_frame_layout(f, log_bytes(rest));
        lemma_log_roundtrip(rest);
        assert(parse_log(log_bytes(frames)) =~= seq![f] + parse_log(log_bytes(rest)));
        assert(seq![f] + rest =~= frames);
    }
}

/// Appending a record to a log that was read to its end adds that record to what is read.
pub proof fn lemma_log_append(b: Seq<u8>, f: FrameView)
    requires
        parsed_len(b) == b.len(),
        encodable(f),
    ensures
        parse_log(b + frame_bytes(f)) == parse_log(b).push(f),
        parsed_len(b + frame_bytes(f)) == (b + frame_bytes(f)).len(),
    decreases b.len(),
{
    if b.len() == 0 {
        let whole = b + frame_bytes(f);
        assert(whole =~= frame_bytes(f) + Seq::<u8>::empty());
        lemma_frame_roundtrip(f, Seq::empty());
        lemma_frame_layout(f, Seq::empty());
        let n = frame_bytes(f).len() as int;
        assert(whole.skip(n) =~= Seq::<u8>::empty());
        assert(parse_log(Seq::<u8>::empty()) =~= Seq::<FrameView>::empty());
        assert(parsed_len(Seq::<u8>::empty()) == 0);
        assert(parse_log(b) =~= Seq::<FrameView>::empty());
        assert(parse_log(whole) =~= seq![f] + parse_log(whole.skip(n)));
        assert(parse_log(whole) =~= parse_log(b).push(f));
        assert(parsed_len(whole) == n + parsed_len(whole.skip(n)));
    } else {
        assert(parse_frame(b) is Ok);
        let (g, n) = parse_frame(b)->Ok_0;
        assert(0 < n <= b.len());
        assert(parsed_len(b) == n + parsed_len(b.skip(n)));
        let whole = b + frame_bytes(f);
        lemma_parse_prefix(b, frame_bytes(f));
        assert(whole.skip(n) =~= b.skip(n) + frame_bytes(f));
        lemma_log_append(b.skip(n), f);
        assert(parse_log(whole) =~= seq![g] + parse_log(whole.skip(n)));
        assert(parse_log(b) =~= seq![g] + parse_log(b.skip(n)));
        assert(parse_log(whole) =~= parse_log(b).push(f));
        assert(parsed_len(whole) == n + parsed_len(whole.skip(n)));
    }
}

/// A record that parses from `b` parses the same from `b` followed by more bytes.
pub proof fn lemma_parse_prefix(b: Seq<u8>, more: Seq<u8>)
    requires
        parse_frame(b) is Ok,
    ensures
        parse_frame(b + more) == parse_frame(b),
{
    let c = b + more;
    let id_len = spec_u32_from_le_bytes(b.subrange(9, 13)) as int;
    assert(c.subrange(9, 13) =~= b.subrange(9, 13));
    assert(c.subrange(1, 9) =~= b.subrange(1, 9));
    assert(c.subrange(13, 13 + id_len) =~= b.subrange(13, 13 + id_len));
    assert(c.subrange(13 + id_len, 17 + id_len) =~= b.subrange(13 + id_len, 17 + id_len));
    let payload_len = spec_u32_from_le_bytes(b.subrange(13 + id_len, 17 + id_len)) as int;
    assert(c.subrange(17 + id_len, 17 + id_len + payload_len) =~= b.subrange(
        17 + id_len,
        17 + id_len + payload_len,
    ));
}

/// Frames `frame`: its bytes, or `FieldTooLong` when a length does not fit.
pub fn encode_frame(frame: &RecordFrame) -> (r: Result<Vec<u8>, CodecError>)
    ensures
        encodable(frame@) ==> r is Ok && r->Ok_0@ == frame_bytes(frame@),
        !encodable(frame@) ==> r == Err::<Vec<u8>, CodecError>(CodecError::FieldTooLong),
{
    let id_bytes = frame.item_id.as_str().as_bytes();
    let payload_bytes = frame.payload.as_str().as_bytes();
    if id_bytes.len() > u32::MAX as usize || payload_bytes.len() > u32::MAX as usize {
        return Err(CodecError::FieldTooLong);
    }
    let mut out: Vec<u8> = Vec::new();
    out.push(frame.operation.as_u8());
    let mut ts = u64_to_le_bytes(frame.timestamp);
    out.append(&mut ts);
    let mut id_len = u32_to_le_bytes(id_bytes.len() as u32);
    out.append(&mut id_len);
    out.extend_from_slice(id_bytes);
    let mut payload_len = u32_to_le_bytes(payload_bytes.len() as u32);
    out.append(&mut payload_len);
    out.extend_from_slice(payload_bytes);
    assert(out@ =~= frame_bytes(frame@));
    Ok(out)
}

/// Reads the record that starts at `start`: the record and the position
/// just behind it, or the first thing that is wrong with the bytes.
pub fn decode_frame(bytes: &[u8], start: usize) -> (r: Result<(RecordFrame, usize), CodecError>)
    requires
        start <= bytes@.len(),
    ensures
        match r {
            Ok((frame, next)) => parse_frame(bytes@.skip(start as int)) == Ok::<
                (FrameView, int),
                CodecError,
            >((frame@, next - start)) && start < next <= bytes@.len(),
            Err(e) => parse_frame(bytes@.skip(start as int)) == Err::<(FrameView, int), CodecError>(
                e,
            ),
        },
{
    let rest = slice_subrange(bytes, start, bytes.len());
    assert(rest@ =~= bytes@.skip(start as int));
    if rest.len() < 1 {
        return Err(CodecError::UnexpectedEof);
    }
    let operation = match Operation::from_u8(rest[0]) {
        Some(op) => op,
        None => {
            return Err(CodecError::InvalidTag);
        },
    };
    if rest.len() < 13 {
        return Err(CodecError::UnexpectedEof);
    }
    let timestamp = u64_from_le_bytes(slice_subrange(rest, 1, 9));
    let id_len = u32_from_le_bytes(slice_subrange(rest, 9, 13)) as usize;
    if rest.len() - 13 < id_len {
        return Err(CodecError::UnexpectedEof);
    }
    let item_id = match string_from_utf8(slice_to_vec(slice_subrange(rest, 13, 13 + id_len))) {
        Some(s) => s,
        None => {
            return Err(CodecError::InvalidUtf8);
        },
    };
    if rest.len() - 13 - id_len < 4 {
        return Err(CodecError::UnexpectedEof);
    }
    let payload_len = u32_from_le_bytes(slice_subrange(rest, 13 + id_len, 17 + id_len)) as usize;
    if rest.len() - 17 - id_len < payload_len {
        return Err(CodecError::UnexpectedEof);
    }
    let payload = match string_from_utf8(
        slice_to_vec(slice_subrange(rest, 17 + id_len, 17 + id_len + payload_len)),
    ) {
        Some(s) => s,
        None => {
            return Err(CodecError::InvalidUtf8);
        },
    };
    Ok((RecordFrame { operation, timestamp, item_id, payload }, start + 17 + id_len + payload_len))
}

/// Reads records from the start of `bytes` until the bytes end or one does
/// not parse; what was read up to there is the result.
pub fn decode_log(bytes: &[u8]) -> (frames: Vec<RecordFrame>)
    ensures
        frames.deep_view() == parse_log(bytes@),
{
    let mut frames: Vec<RecordFrame> = Vec::new();
    let mut pos: usize = 0;
    assert(bytes@.skip(0) =~= bytes@);
    assert(frames.deep_view() + parse_log(bytes@.skip(0)) =~= parse_log(bytes@));
    loop
        invariant
            pos <= bytes@.len(),
            parse_log(bytes@) == frames.deep_view() + parse_log(bytes@.skip(pos as int)),
        ensures
            frames.deep_view() == parse_log(bytes@),
        decreases bytes@.len() - pos,
    {
        match decode_frame(bytes, pos) {
            Ok((frame, next)) => {
                let ghost before = frames.deep_view();
                let ghost n = next - pos;
                assert(bytes@.skip(pos as int).skip(n) =~= bytes@.skip(next as int));
                frames.push(frame);
                assert(frames.deep_view() =~= before.push(frame@));
                assert(before + (seq![frame@] + parse_log(bytes@.skip(next as int)))
                    =~= before.push(frame@) + parse_log(bytes@.skip(next as int)));
                pos = next;
            },
            Err(_) => {
                assert(frames.deep_view() + Seq::<FrameView>::empty() =~= frames.deep_view());
                break;
            },
        }
    }
    frames
}

/// Frames `frames` one after the other; `FieldTooLong` when one of them
/// cannot be framed.
pub fn encode_log(frames: &Vec<RecordFrame>) -> (r: Result<Vec<u8>, CodecError>)
    ensures
        (forall|i: int| 0 <= i < frames.len() ==> encodable(#[trigger] frames[i]@)) ==> r is Ok
            && r->Ok_0@ == log_bytes(frames.deep_view()),
        (exists|i: int| 0 <= i < frames.len() && !encodable(#[trigger] frames[i]@)) ==> r == Err::<
            Vec<u8>,
            CodecError,
        >(CodecError::FieldTooLong),
{
    let mut out: Vec<u8> = Vec::new();
    let mut i: usize = 0;
    assert(frames.deep_view().take(0) =~= Seq::<FrameView>::empty());
    while i < frames.len()
        invariant
            i <= frames.len(),
            forall|j: int| 0 <= j < i ==> encodable(#[trigger] frames[j]@),
            out@ == log_bytes(frames.deep_view().take(i as int)),
        decreases frames.len() - i,
    {
        match encode_frame(&frames[i]) {
            Ok(mut piece) => {
                proof {
                    lemma_log_bytes_push(frames.deep_view().take(i as int), frames[i as int]@);
                    assert(frames.deep_view().take(i as int).push(frames[i as int]@)
                        =~= frames.deep_view().take(i + 1));
                }
                out.append(&mut piece);
            },
            Err(e) => {
                return Err(e);
            },
        }
        i += 1;
    }
    assert(frames.deep_view().take(i as int) =~= frames.deep_view());
    Ok(out)
}

/// The bytes of a log with one more record are those of the log followed by the record's.
pub proof fn lemma_log_bytes_push(frames: Seq<FrameView>, f: FrameView)
    ensures
        log_bytes(frames.push(f)) == log_bytes(frames) + frame_bytes(f),
    decreases frames.len(),
{
    let more = frames.push(f);
    if frames.len() == 0 {
        assert(more.drop_first() =~= Seq::<FrameView>::empty());
        assert(more[0] == f);
        assert(log_bytes(more.drop_first()) =~= Seq::<u8>::empty());
        assert(log_bytes(frames) =~= Seq::<u8>::empty());
        assert(log_bytes(more) =~= frame_bytes(f) + log_bytes(more.drop_first()));
        assert(log_bytes(more) =~= log_bytes(frames) + frame_bytes(f));
    } else {
        assert(more.drop_first() =~= frames.drop_first().push(f));
        assert(more[0] == frames[0]);
        lemma_log_bytes_push(frames.drop_first(), f);
        assert(log_bytes(more) =~= frame_bytes(frames[0]) + log_bytes(more.drop_first()));
        assert(log_bytes(more) =~= log_bytes(frames) + frame_bytes(f));
    }
}

} // verus!
