//! The serial line as a stream of frames.
//!
//! On the line each frame is COBS/R-encoded, so that it holds no zero byte, and a
//! zero byte ends it. A decoded frame holds the length of a log record in four
//! bytes, and the record.

use vstd::prelude::*;

use crate::bytes::u32_from_le;

verus! {

/// How many bytes the gateway keeps of the serial line.
pub const SERIAL_BUF_SIZE: usize = 64;

// ---------------------------------------------------------------------------
// Cutting a stream into frames
// ---------------------------------------------------------------------------

/// How many bytes stand in `s` before its first zero byte.
pub open spec fn frame_len(s: Seq<u8>) -> nat
    decreases s.len(),
{
    if s.len() == 0 || s[0] == 0 {
        0
    } else {
        1 + frame_len(s.skip(1))
    }
}

/// Whether `s` holds no zero byte.
pub open spec fn zero_free(s: Seq<u8>) -> bool {
    forall|i: int| 0 <= i < s.len() ==> #[trigger] s[i] != 0
}

/// A frame is no longer than the stream it starts, and holds no zero byte; a zero
/// byte or the end of the stream follows it.
pub proof fn lemma_frame_len(s: Seq<u8>)
    ensures
        frame_len(s) <= s.len(),
        zero_free(s.take(frame_len(s) as int)),
        frame_len(s) < s.len() ==> s[frame_len(s) as int] == 0,
    decreases s.len(),
{
    if s.len() > 0 && s[0] != 0 {
        let rest = s.skip(1);
        lemma_frame_len(rest);
        let n = frame_len(s) as int;
        assert forall|i: int| 0 <= i < n implies #[trigger] s.take(n)[i] != 0 by {
            if i > 0 {
                assert(rest.take(n - 1)[i - 1] == s[i]);
            }
        }
    }
}

proof fn lemma_frame_len_is(s: Seq<u8>, n: int)
    requires
        0 <= n <= s.len(),
        forall|i: int| 0 <= i < n ==> #[trigger] s[i] != 0,
        n < s.len() ==> s[n] == 0,
    ensures
        frame_len(s) == n,
{
    lemma_frame_len(s);
    let m = frame_len(s) as int;
    if n < m {
        assert(s.take(m)[n] == s[n]);
    }
}

/// The frames that a stream holds whole: what stands before each of its zero
/// bytes, back to the zero byte before.
pub open spec fn whole_frames(s: Seq<u8>) -> Seq<Seq<u8>>
    decreases s.len(),
{
    if frame_len(s) < s.len() {
        seq![s.take(frame_len(s) as int)] + whole_frames(s.skip(frame_len(s) as int + 1))
    } else {
        seq![]
    }
}

/// What a stream holds after its last zero byte: the start of a frame to come.
pub open spec fn unfinished(s: Seq<u8>) -> Seq<u8>
    decreases s.len(),
{
    if frame_len(s) < s.len() {
        unfinished(s.skip(frame_len(s) as int + 1))
    } else {
        s
    }
}

/// The stream of frames, each with the zero byte that ends it.
pub open spec fn joined(frames: Seq<Seq<u8>>) -> Seq<u8>
    decreases frames.len(),
{
    if frames.len() == 0 {
        seq![]
    } else {
        frames[0] + seq![0u8] + joined(frames.skip(1))
    }
}

/// What a list of byte vectors holds.
pub open spec fn views(v: Seq<Vec<u8>>) -> Seq<Seq<u8>> {
    v.map_values(|f: Vec<u8>| f@)
}

/// No byte of a stream is lost: its frames, each with its zero byte, and the
/// unfinished rest are the stream. No frame holds a zero byte, nor does the rest.
pub proof fn no_byte_is_lost(s: Seq<u8>)
    ensures
        joined(whole_frames(s)) + unfinished(s) == s,
        forall|i: int| 0 <= i < whole_frames(s).len() ==> zero_free(#[trigger] whole_frames(s)[i]),
        zero_free(unfinished(s)),
    decreases s.len(),
{
    lemma_frame_len(s);
    let n = frame_len(s) as int;
    if n < s.len() {
        let rest = s.skip(n + 1);
        no_byte_is_lost(rest);
        let frames = whole_frames(s);
        assert(frames.skip(1) == whole_frames(rest));
        assert(frames[0] == s.take(n));
        assert(s.take(n) + seq![0u8] + rest == s);
        assert(joined(frames) + unfinished(s) == s.take(n) + seq![0u8] + (joined(
            whole_frames(rest),
        ) + unfinished(rest)));
        assert forall|i: int| 0 <= i < frames.len() implies zero_free(#[trigger] frames[i]) by {
            if i > 0 {
                assert(frames[i] == whole_frames(rest)[i - 1]);
            }
        }
    } else {
        assert(s.take(n) == s);
        assert(joined(whole_frames(s)) + s == s);
    }
}

/// Frames sent are the frames received: cutting the stream of any frames without
/// zero bytes gives those frames, and leaves the rest that followed them.
pub proof fn frames_sent_are_received(frames: Seq<Seq<u8>>, rest: Seq<u8>)
    requires
        forall|i: int| 0 <= i < frames.len() ==> zero_free(#[trigger] frames[i]),
        zero_free(rest),
    ensures
        whole_frames(joined(frames) + rest) == frames,
        unfinished(joined(frames) + rest) == rest,
    decreases frames.len(),
{
    let s = joined(frames) + rest;
    if frames.len() == 0 {
        assert(s == rest);
        lemma_frame_len_is(s, s.len() as int);
    } else {
        let first = frames[0];
        let others = frames.skip(1);
        let n = first.len() as int;
        assert(s == first + seq![0u8] + (joined(others) + rest));
        assert forall|i: int| 0 <= i < n implies #[trigger] s[i] != 0 by {
            assert(s[i] == first[i]);
        }
        assert(s[n] == 0);
        lemma_frame_len_is(s, n);
        assert(s.take(n) == first);
        assert(s.skip(n + 1) == joined(others) + rest);
        assert forall|i: int| 0 <= i < others.len() implies zero_free(#[trigger] others[i]) by {
            assert(others[i] == frames[i + 1]);
        }
        frames_sent_are_received(others, rest);
        assert(seq![first] + others == frames);
    }
}

/// It does not matter where reading a stream was interrupted: the frames of `a + b`
/// are those of `a`, and then those of the rest of `a` with `b` behind it.
pub proof fn reads_can_be_split(a: Seq<u8>, b: Seq<u8>)
    ensures
        whole_frames(a + b) == whole_frames(a) + whole_frames(unfinished(a) + b),
        unfinished(a + b) == unfinished(unfinished(a) + b),
    decreases a.len(),
{
    lemma_frame_len(a);
    let n = frame_len(a) as int;
    let s = a + b;
    if n < a.len() {
        assert forall|i: int| 0 <= i < n implies #[trigger] s[i] != 0 by {
            assert(a.take(n)[i] == a[i]);
        }
        assert(s[n] == 0);
        lemma_frame_len_is(s, n);
        assert(s.take(n) == a.take(n));
        assert(s.skip(n + 1) == a.skip(n + 1) + b);
        reads_can_be_split(a.skip(n + 1), b);
        assert(whole_frames(s) == seq![a.take(n)] + (whole_frames(a.skip(n + 1)) + whole_frames(
            unfinished(a) + b,
        )));
    } else {
        assert(whole_frames(a) + whole_frames(a + b) == whole_frames(a + b));
    }
}

/// The bytes of several reads, one after the other.
pub open spec fn concatenated(reads: Seq<Seq<u8>>) -> Seq<u8>
    decreases reads.len(),
{
    if reads.len() == 0 {
        seq![]
    } else {
        reads[0] + concatenated(reads.skip(1))
    }
}

/// The frames that come out when `reads` are taken in one after the other, where
/// `kept` was left over before.
pub open spec fn frames_of_reads(kept: Seq<u8>, reads: Seq<Seq<u8>>) -> Seq<Seq<u8>>
    decreases reads.len(),
{
    if reads.len() == 0 {
        seq![]
    } else {
        whole_frames(kept + reads[0]) + frames_of_reads(
            unfinished(kept + reads[0]),
            reads.skip(1),
        )
    }
}

/// What is left over when `reads` are taken in one after the other, where `kept`
/// was left over before.
pub open spec fn kept_after_reads(kept: Seq<u8>, reads: Seq<Seq<u8>>) -> Seq<u8>
    decreases reads.len(),
{
    if reads.len() == 0 {
        kept
    } else {
        kept_after_reads(unfinished(kept + reads[0]), reads.skip(1))
    }
}

/// It does not matter how the line's bytes were spread over reads: the frames are
/// those of all the bytes taken together.
pub proof fn reads_do_not_matter(kept: Seq<u8>, reads: Seq<Seq<u8>>)
    requires
        zero_free(kept),
    ensures
        frames_of_reads(kept, reads) == whole_frames(kept + concatenated(reads)),
        kept_after_reads(kept, reads) == unfinished(kept + concatenated(reads)),
    decreases reads.len(),
{
    if reads.len() == 0 {
        assert(kept + concatenated(reads) == kept);
        lemma_frame_len_is(kept, kept.len() as int);
    } else {
        let first = kept + reads[0];
        let later = concatenated(reads.skip(1));
        no_byte_is_lost(first);
        reads_do_not_matter(unfinished(first), reads.skip(1));
        reads_can_be_split(first, later);
        assert(kept + concatenated(reads) == first + later);
    }
}

// ---------------------------------------------------------------------------
// The receive buffer
// ---------------------------------------------------------------------------

/// The bytes that came over the serial line and belong to no whole frame yet.
pub struct SerialBuffer {
    buf: [u8; SERIAL_BUF_SIZE],
    start: usize,
    end: usize,
}

impl View for SerialBuffer {
    type V = Seq<u8>;

    closed spec fn view(&self) -> Seq<u8> {
        self.buf@.subrange(self.start as int, self.end as int)
    }
}

impl SerialBuffer {
    spec fn in_bounds(&self) -> bool {
        self.start <= self.end <= SERIAL_BUF_SIZE
    }

    /// The kept bytes lie within the buffer, and none of them is zero.
    pub closed spec fn wf(&self) -> bool {
        &&& self.in_bounds()
        &&& zero_free(self@)
    }

    /// A buffer keeps no more than it has room for, and no zero byte.
    pub proof fn kept_bytes_are_bounded(&self)
        requires
            self.wf(),
        ensures
            self@.len() <= SERIAL_BUF_SIZE,
            zero_free(self@),
    {
    }

    /// An empty buffer.
    pub fn new() -> (r: SerialBuffer)
        ensures
            r.wf(),
            r@ == Seq::<u8>::empty(),
    {
        let r = SerialBuffer { buf: [0;SERIAL_BUF_SIZE], start: 0, end: 0 };
        assert(r@ == Seq::<u8>::empty());
        r
    }

    /// Moves the kept bytes to the front and says how many more fit behind them.
    pub fn make_room(&mut self) -> (r: usize)
        requires
            old(self).wf(),
        ensures
            final(self).wf(),
            final(self)@ == old(self)@,
            r == SERIAL_BUF_SIZE - old(self)@.len(),
    {
        self.compact();
        SERIAL_BUF_SIZE - self.end
    }

    fn compact(&mut self)
        requires
            old(self).wf(),
        ensures
            final(self).wf(),
            final(self)@ == old(self)@,
            final(self).start == 0,
    {
        let ghost kept = self@;
        let ghost before = self.buf@;
        let start: usize = self.start;
        let len: usize = self.end - self.start;
        if start > 0 {
            let mut i: usize = 0;
            while i < len
                invariant
                    start + len <= SERIAL_BUF_SIZE,
                    start > 0,
                    i <= len,
                    before.len() == SERIAL_BUF_SIZE,
                    self.buf@.len() == SERIAL_BUF_SIZE,
                    forall|k: int| 0 <= k < i ==> self.buf@[k] == before[start + k],
                    forall|k: int| i <= k < SERIAL_BUF_SIZE ==> self.buf@[k] == before[k],
                decreases len - i,
            {
                self.buf[i] = self.buf[start + i];
                i += 1;
            }
            self.start = 0;
            self.end = len;
            assert(self@ == kept);
        }
    }

    fn find_zero(&self) -> (r: Option<usize>)
        requires
            self.in_bounds(),
        ensures
            match r {
                Some(pos) => pos < self@.len() && pos == frame_len(self@),
                None => frame_len(self@) == self@.len(),
            },
    {
        let mut pos: usize = 0;
        while pos < self.end - self.start
            invariant
                self.start <= self.end <= SERIAL_BUF_SIZE,
                pos <= self.end - self.start,
                forall|k: int| 0 <= k < pos ==> #[trigger] self@[k] != 0,
            decreases self.end - self.start - pos,
        {
            assert(self@[pos as int] == self.buf@[self.start + pos]);
            if self.buf[self.start + pos] == 0 {
                proof {
                    lemma_frame_len_is(self@, pos as int);
                }
                return Some(pos);
            }
            pos += 1;
        }
        proof {
            lemma_frame_len_is(self@, pos as int);
        }
        None
    }

    fn take_frame(&mut self) -> (r: Option<Vec<u8>>)
        requires
            old(self).in_bounds(),
        ensures
            final(self).in_bounds(),
            match r {
                Some(frame) => {
                    &&& frame_len(old(self)@) < old(self)@.len()
                    &&& frame@ == old(self)@.take(frame_len(old(self)@) as int)
                    &&& final(self)@ == old(self)@.skip(frame_len(old(self)@) as int + 1)
                },
                None => {
                    &&& frame_len(old(self)@) == old(self)@.len()
                    &&& final(self)@ == old(self)@
                },
            },
    {
        let ghost rest = self@;
        match self.find_zero() {
            Some(pos) => {
                let frame_end: usize = self.start + pos;
                let mut frame: Vec<u8> = Vec::new();
                let mut k: usize = self.start;
                while k < frame_end
                    invariant
                        self.start <= k <= frame_end <= SERIAL_BUF_SIZE,
                        frame@ == self.buf@.subrange(self.start as int, k as int),
                    decreases frame_end - k,
                {
                    frame.push(self.buf[k]);
                    k += 1;
                }
                assert(frame@ == rest.take(pos as int));
                self.start = frame_end + 1;
                assert(self@ == rest.skip(pos + 1));
                Some(frame)
            },
            None => None,
        }
    }

    /// Takes in bytes that were read from the line, and hands out the frames that
    /// they complete, in order.
    pub fn feed(&mut self, bytes: &[u8]) -> (r: Vec<Vec<u8>>)
        requires
            old(self).wf(),
            old(self)@.len() + bytes@.len() <= SERIAL_BUF_SIZE,
        ensures
            final(self).wf(),
            views(r@) == whole_frames(old(self)@ + bytes@),
            final(self)@ == unfinished(old(self)@ + bytes@),
    {
        let ghost stream = self@ + bytes@;
        self.compact();
        let ghost kept = self@;
        let n: usize = bytes.len();
        let end: usize = self.end;
        let mut i: usize = 0;
        while i < n
            invariant
                n == bytes@.len(),
                self.start == 0,
                self.end == end,
                end == kept.len(),
                end + n <= SERIAL_BUF_SIZE,
                i <= n,
                forall|k: int| 0 <= k < end ==> self.buf@[k] == kept[k],
                forall|k: int| 0 <= k < i ==> self.buf@[end + k] == bytes@[k],
            decreases n - i,
        {
            self.buf[end + i] = bytes[i];
            i += 1;
        }
        self.end = end + n;
        assert(self@ == stream);

        let mut frames: Vec<Vec<u8>> = Vec::new();
        assert(views(frames@) + whole_frames(stream) == whole_frames(stream));
        loop
            invariant
                self.in_bounds(),
                views(frames@) + whole_frames(self@) == whole_frames(stream),
                unfinished(self@) == unfinished(stream),
            ensures
                frame_len(self@) == self@.len(),
            decreases self@.len(),
        {
            let ghost rest = self@;
            let ghost found = views(frames@);
            match self.take_frame() {
                Some(frame) => {
                    frames.push(frame);
                    assert(views(frames@) == found.push(frame@));
                    assert(found + (seq![frame@] + whole_frames(self@)) == views(frames@)
                        + whole_frames(self@));
                },
                None => {
                    break;
                },
            }
        }
        proof {
            assert(views(frames@) + Seq::<Seq<u8>>::empty() == views(frames@));
            no_byte_is_lost(stream);
        }
        frames
    }

    /// Whether the buffer is full of bytes that no zero byte has ended.
    pub fn is_full(&self) -> (r: bool)
        requires
            self.wf(),
        ensures
            r == (self@.len() == SERIAL_BUF_SIZE),
    {
        self.end - self.start == SERIAL_BUF_SIZE
    }
}

// ---------------------------------------------------------------------------
// What a frame holds
// ---------------------------------------------------------------------------

/// Why a frame is dropped before its log record is looked at.
#[derive(Debug, Clone, Copy, PartialEq, Eq, Structural)]
pub enum FrameError {
    /// The frame is not COBS/R-encoded.
    Encoding,
    /// The decoded frame has no room for a length.
    TooShort,
    /// The decoded frame's length is not the one it states.
    LengthMismatch,
}

impl FrameError {
    /// What is reported of the error.
    pub open spec fn report(self) -> Seq<char> {
        match self {
            FrameError::Encoding => "COBS decode error - skipping frame"@,
            FrameError::TooShort => "Frame too short"@,
            FrameError::LengthMismatch => "Length mismatch"@,
        }
    }

    /// What is reported of the error.
    pub fn message(&self) -> (r: String)
        ensures
            r@ == self.report(),
    {
        match self {
            FrameError::Encoding => "COBS decode error - skipping frame".to_owned(),
            FrameError::TooShort => "Frame too short".to_owned(),
            FrameError::LengthMismatch => "Length mismatch".to_owned(),
        }
    }
}

/// The log record in a decoded frame: what follows the length, where the length is
/// right.
pub open spec fn record_of(decoded: Seq<u8>) -> Result<Seq<u8>, FrameError> {
    if decoded.len() < 4 {
        Err(FrameError::TooShort)
    } else if decoded.len() - 4 != crate::bytes::le_value(decoded.take(4)) {
        Err(FrameError::LengthMismatch)
    } else {
        Ok(decoded.skip(4))
    }
}

/// The data that a COBS/R-encoded frame stands for.
///
/// A frame is a run of blocks. A block starts with a code byte, which counts the
/// block's bytes, itself included. The bytes behind it are data; a zero byte is data
/// after every block but the last and those with the code 255. Where the code of the
/// last block is larger than the block, it is the last byte of the data.
pub open spec fn cobsr_decoded(frame: Seq<u8>) -> Seq<u8>
    decreases frame.len(),
{
    if frame.len() == 0 || frame[0] == 0 {
        seq![]
    } else if frame[0] > frame.len() {
        frame.skip(1).push(frame[0])
    } else if frame[0] == frame.len() {
        frame.skip(1)
    } else {
        let code = frame[0] as int;
        let zero = if code < 255 {
            seq![0u8]
        } else {
            seq![]
        };
        frame.subrange(1, code) + zero + cobsr_decoded(frame.skip(code))
    }
}

/// Decoding a frame never needs more room than the frame takes.
pub proof fn decoding_never_grows(frame: Seq<u8>)
    ensures
        cobsr_decoded(frame).len() <= frame.len(),
    decreases frame.len(),
{
    if frame.len() > 0 && 0 < frame[0] < frame.len() {
        decoding_never_grows(frame.skip(frame[0] as int));
    }
}

/// The log record in a frame as it came over the line.
pub open spec fn record_of_frame(frame: Seq<u8>) -> Result<Seq<u8>, FrameError> {
    if zero_free(frame) {
        record_of(cobsr_decoded(frame))
    } else {
        Err(FrameError::Encoding)
    }
}

/// The error type of the crate `cobs2`.
#[verifier::external_type_specification]
#[verifier::external_body]
pub struct ExCobsError(cobs2::Error);

/// `cobs2::cobsr::decode_max_output_size`: decoding never needs more room than the
/// encoded data takes.
pub assume_specification[ cobs2::cobsr::decode_max_output_size ](input_len: usize) -> (r: usize)
    ensures
        r == input_len,
;

/// `cobs2::cobsr::decode_array`, with an output buffer as large as the input. It
/// fails exactly where a zero byte stands in the input; otherwise it gives the data
/// that the blocks of the input hold, in the part of the buffer that it wrote.
#[verifier::external_body]
fn cobsr_decode_array(out_buf: Vec<u8>, in_buf: &[u8]) -> (r: Result<Vec<u8>, cobs2::Error>)
    requires
        out_buf@.len() >= in_buf@.len(),
    ensures
        r is Ok <==> zero_free(in_buf@),
        r is Ok ==> r->Ok_0@ == cobsr_decoded(in_buf@),
{
    let mut out_buf = out_buf;
    cobs2::cobsr::decode_array(&mut out_buf, in_buf).map(|decoded| decoded.to_vec())
}

/// The data that a frame stands for.
pub fn decode_frame(frame: &[u8]) -> (r: Result<Vec<u8>, FrameError>)
    ensures
        match r {
            Ok(decoded) => zero_free(frame@) && decoded@ == cobsr_decoded(frame@),
            Err(e) => e == FrameError::Encoding && !zero_free(frame@),
        },
{
    let decoded: Vec<u8> = vec![0; cobs2::cobsr::decode_max_output_size(frame.len())];
    match cobsr_decode_array(decoded, frame) {
        Ok(decoded) => Ok(decoded),
        Err(_) => Err(FrameError::Encoding),
    }
}

/// The log record in a decoded frame.
pub fn log_record(decoded: &[u8]) -> (r: Result<Vec<u8>, FrameError>)
    ensures
        match r {
            Ok(record) => record_of(decoded@) == Ok::<Seq<u8>, FrameError>(record@),
            Err(e) => record_of(decoded@) == Err::<Seq<u8>, FrameError>(e),
        },
{
    if decoded.len() < 4 {
        return Err(FrameError::TooShort);
    }
    let (head, body) = decoded.split_at(4);
    assert(head@ == decoded@.take(4));
    assert(body@ == decoded@.skip(4));
    let log_len: u32 = u32_from_le(head);
    if decoded.len() - 4 != log_len as usize {
        return Err(FrameError::LengthMismatch);
    }
    Ok(vstd::slice::slice_to_vec(body))
}

/// A frame cut from the line is never dropped for its encoding.
pub proof fn received_frames_decode(stream: Seq<u8>, i: int)
    requires
        0 <= i < whole_frames(stream).len(),
    ensures
        record_of_frame(whole_frames(stream)[i]) == record_of(
            cobsr_decoded(whole_frames(stream)[i]),
        ),
{
    no_byte_is_lost(stream);
}

/// A record behind its length in four bytes is taken out as it was put in.
pub proof fn records_are_taken_out(record: Seq<u8>)
    requires
        record.len() <= u32::MAX,
    ensures
        record_of(crate::bytes::le_bytes(record.len(), 4) + record) == Ok::<Seq<u8>, FrameError>(
            record,
        ),
{
    crate::bytes::byte_range_values();
    crate::bytes::le_bytes_read_back(record.len(), 4);
    let head = crate::bytes::le_bytes(record.len(), 4);
    assert((head + record).take(4) == head);
    assert((head + record).skip(4) == record);
}

/// A record is taken out only where it stands behind its own length, in four bytes with
/// the least significant first; a frame that lost or gained a byte gives none.
pub proof fn records_are_taken_out_whole(decoded: Seq<u8>, record: Seq<u8>)
    ensures
        record_of(decoded) == Ok::<Seq<u8>, FrameError>(record) <==> {
            &&& decoded.len() == 4 + record.len()
            &&& decoded.skip(4) == record
            &&& decoded[0] + 256 * decoded[1] + 65536 * decoded[2] + 16777216 * decoded[3]
                == record.len()
        },
        record_of(decoded) == Ok::<Seq<u8>, FrameError>(record) ==> decoded
            == crate::bytes::le_bytes(record.len(), 4) + record,
        record_of(decoded) == Err::<Seq<u8>, FrameError>(FrameError::TooShort) <==> decoded.len()
            < 4,
        record_of(decoded) != Err::<Seq<u8>, FrameError>(FrameError::Encoding),
{
    if decoded.len() >= 4 {
        crate::bytes::four_bytes_hold_their_sum(decoded.take(4));
        crate::bytes::bytes_hold_one_number(decoded.take(4));
        assert(decoded == decoded.take(4) + decoded.skip(4));
    }
}

/// A frame with a zero byte in it holds no record; any other holds what its data holds.
pub proof fn only_encoded_frames_hold_records(frame: Seq<u8>)
    ensures
        (exists|i: int| 0 <= i < frame.len() && #[trigger] frame[i] == 0) ==> record_of_frame(frame)
            == Err::<Seq<u8>, FrameError>(FrameError::Encoding),
        (forall|i: int| 0 <= i < frame.len() ==> #[trigger] frame[i] != 0) ==> record_of_frame(frame)
            == record_of(cobsr_decoded(frame)),
{
}

/// The blocks of a frame are decoded one by one: the data of a block, a zero byte where
/// another block follows and the block is not of the greatest length, and the data of
/// the blocks that follow. A code that counts more than is left is itself data.
pub proof fn blocks_are_decoded_one_by_one(code: u8, data: Seq<u8>, rest: Seq<u8>)
    requires
        code > 0,
    ensures
        data.len() + 1 == code && rest.len() > 0 ==> cobsr_decoded(seq![code] + data + rest) == data
            + (if code == 255 {
            Seq::<u8>::empty()
        } else {
            seq![0u8]
        }) + cobsr_decoded(rest),
        data.len() + 1 == code ==> cobsr_decoded(seq![code] + data) == data,
        data.len() + 1 < code ==> cobsr_decoded(seq![code] + data) == data + seq![code],
        cobsr_decoded(Seq::<u8>::empty()) == Seq::<u8>::empty(),
{
    let block = seq![code] + data;
    assert(block.skip(1) == data);
    assert(data.push(code) == data + seq![code]);
    if data.len() + 1 == code && rest.len() > 0 {
        let frame = block + rest;
        assert(frame[0] == code);
        assert(frame.subrange(1, code as int) == data);
        assert(frame.skip(code as int) == rest);
    }
}

/// Records sent are the records received: where the frames of a stream hold records
/// behind their lengths, cutting the stream and taking the frames apart gives those
/// records, in order.
pub proof fn records_sent_are_received(frames: Seq<Seq<u8>>, records: Seq<Seq<u8>>, i: int)
    requires
        frames.len() == records.len(),
        forall|k: int|
            0 <= k < frames.len() ==> {
                &&& zero_free(#[trigger] frames[k])
                &&& records[k].len() <= u32::MAX
                &&& cobsr_decoded(frames[k]) == crate::bytes::le_bytes(records[k].len(), 4)
                    + records[k]
            },
        0 <= i < records.len(),
    ensures
        whole_frames(joined(frames)).len() == records.len(),
        record_of_frame(whole_frames(joined(frames))[i]) == Ok::<Seq<u8>, FrameError>(records[i]),
{
    let rest = Seq::<u8>::empty();
    assert(joined(frames) + rest == joined(frames));
    assert forall|k: int| 0 <= k < frames.len() implies zero_free(#[trigger] frames[k]) by {}
    frames_sent_are_received(frames, rest);
    assert(zero_free(frames[i]));
    records_are_taken_out(records[i]);
}

} // verus!
