use vstd::prelude::*;
use vstd::slice::slice_subrange;
use vstd::string::StringSliceAdditionalSpecFns;
use crate::codec::{Response, custom_spec};

verus! {

/// Bytes the accumulator can hold; a line that would reach this size is discarded.
pub const CAPACITY: usize = 256;

/// The byte that ends a line (`'\n'`).
pub const DELIMITER: u8 = 10;

/// The abstract state of the accumulator: the bytes of the current line, and whether
/// that line has overflowed and is being dropped.
pub struct AccState {
    pub buf: Seq<u8>,
    pub discard: bool,
}

/// The state at the start of a line.
pub open spec fn empty_state() -> AccState {
    AccState { buf: Seq::empty(), discard: false }
}

/// The buffer stays below capacity, and holds nothing while a line is being dropped.
pub open spec fn state_wf(s: AccState) -> bool {
    s.buf.len() < CAPACITY && (s.discard ==> s.buf.len() == 0)
}

/// Whether `b` holds a delimiter.
pub open spec fn has_delimiter(b: Seq<u8>) -> bool
    decreases b.len(),
{
    if b.len() == 0 {
        false
    } else if b[0] == DELIMITER {
        true
    } else {
        has_delimiter(b.drop_first())
    }
}

/// How many bytes of `b` one feed consumes: up to and including the first delimiter,
/// or all of `b` if it has none.
pub open spec fn scan_len(b: Seq<u8>) -> nat
    decreases b.len(),
{
    if b.len() == 0 {
        0
    } else if b[0] == DELIMITER {
        1
    } else {
        1 + scan_len(b.drop_first())
    }
}

/// The state after one feed of `chunk`.
pub open spec fn feed_spec(s: AccState, chunk: Seq<u8>) -> AccState {
    let c = scan_len(chunk);
    if s.buf.len() + c >= CAPACITY {
        AccState { buf: Seq::empty(), discard: true }
    } else if !s.discard && c > 0 {
        AccState { buf: s.buf + chunk.take(c as int), discard: s.discard }
    } else {
        s
    }
}

/// A line's bytes without its trailing delimiter.
pub open spec fn strip_delimiter(buf: Seq<u8>) -> Seq<u8> {
    if buf.len() > 0 {
        buf.take(buf.len() - 1)
    } else {
        buf
    }
}

/// What a completed line yields: `None` for an overflowed line, else its bytes.
pub open spec fn frame_of(s: AccState) -> Option<Seq<u8>> {
    if s.discard {
        None
    } else {
        Some(strip_delimiter(s.buf))
    }
}

proof fn lemma_scan_bounds(b: Seq<u8>)
    ensures
        scan_len(b) <= b.len(),
        b.len() > 0 ==> scan_len(b) >= 1,
        !has_delimiter(b) ==> scan_len(b) == b.len(),
    decreases b.len(),
{
    if b.len() > 0 && b[0] != DELIMITER {
        lemma_scan_bounds(b.drop_first());
    }
}

/// How far one feed of `b` advances (`scan_len`, which never exceeds `b.len()`).
pub open spec fn step_len(b: Seq<u8>) -> nat {
    if scan_len(b) <= b.len() {
        scan_len(b)
    } else {
        b.len()
    }
}

/// Feeding `bytes` again and again, as the server does with what it has received,
/// until nothing is left: the final state and the frames completed, in order.
pub open spec fn drain(s: AccState, bytes: Seq<u8>) -> (AccState, Seq<Option<Seq<u8>>>)
    decreases bytes.len(),
{
    if bytes.len() == 0 {
        (s, Seq::empty())
    } else {
        let c = step_len(bytes);
        let s1 = feed_spec(s, bytes);
        if has_delimiter(bytes) {
            let rest = drain(empty_state(), bytes.skip(c as int));
            (rest.0, seq![frame_of(s1)] + rest.1)
        } else {
            drain(s1, bytes.skip(c as int))
        }
    }
}

proof fn lemma_scan_append(a: Seq<u8>, b: Seq<u8>)
    ensures
        !has_delimiter(a) ==> scan_len(a + b) == a.len() + scan_len(b) && has_delimiter(a + b)
            == has_delimiter(b),
        has_delimiter(a) ==> scan_len(a + b) == scan_len(a) && has_delimiter(a + b),
    decreases a.len(),
{
    if a.len() == 0 {
        assert(a + b =~= b);
    } else {
        assert((a + b)[0] == a[0]);
        assert((a + b).drop_first() =~= a.drop_first() + b);
        lemma_scan_append(a.drop_first(), b);
    }
}

proof fn lemma_feed_wf(s: AccState, chunk: Seq<u8>)
    requires
        state_wf(s),
    ensures
        state_wf(feed_spec(s, chunk)),
        has_delimiter(chunk) && !feed_spec(s, chunk).discard ==> feed_spec(s, chunk).buf.len() > 0,
{
    lemma_scan_bounds(chunk);
    if has_delimiter(chunk) {
        assert(chunk.len() > 0);
    }
}

proof fn lemma_feed_split(s: AccState, a: Seq<u8>, b: Seq<u8>)
    requires
        state_wf(s),
        !has_delimiter(a),
    ensures
        feed_spec(s, a + b) == feed_spec(feed_spec(s, a), b),
{
    lemma_scan_append(a, b);
    lemma_scan_bounds(a);
    lemma_scan_bounds(b);
    lemma_scan_bounds(a + b);
    let ca = scan_len(a);
    let cb = scan_len(b);
    assert((a + b).take((ca + cb) as int) =~= a + b.take(cb as int));
    assert(a.take(ca as int) =~= a);
    if a.len() == 0 {
        assert(a + b =~= b);
    }
    let s1 = feed_spec(s, a);
    if s.buf.len() + ca >= CAPACITY {
        assert(s1 == AccState { buf: Seq::<u8>::empty(), discard: true });
    } else if s.discard {
        assert(s.buf =~= Seq::<u8>::empty());
        assert(s1 == s);
    } else if ca > 0 {
        assert(s1.buf =~= s.buf + a);
        if s.buf.len() + ca + cb < CAPACITY {
            if cb == 0 {
                assert(s.buf + (a + b).take((ca + cb) as int) =~= s1.buf);
            } else {
                assert(s.buf + (a + b).take((ca + cb) as int) =~= s1.buf + b.take(cb as int));
            }
        }
    }
}

proof fn lemma_drain_wf(s: AccState, bytes: Seq<u8>)
    requires
        state_wf(s),
    ensures
        state_wf(drain(s, bytes).0),
    decreases bytes.len(),
{
    if bytes.len() > 0 {
        lemma_scan_bounds(bytes);
        let c = step_len(bytes);
        lemma_feed_wf(s, bytes);
        if has_delimiter(bytes) {
            lemma_drain_wf(empty_state(), bytes.skip(c as int));
        } else {
            lemma_drain_wf(feed_spec(s, bytes), bytes.skip(c as int));
        }
    }
}

/// Draining `a + b` is draining `a`, then draining `b` from where `a` left off: how the
/// bytes were split into chunks changes neither the frames nor the final state.
pub proof fn lemma_drain_append(s: AccState, a: Seq<u8>, b: Seq<u8>)
    requires
        state_wf(s),
    ensures
        drain(s, a + b) == (drain(drain(s, a).0, b).0, drain(s, a).1 + drain(drain(s, a).0, b).1),
    decreases a.len(),
{
    let ra = drain(s, a);
    let rb = drain(ra.0, b);
    lemma_scan_bounds(a);
    lemma_scan_append(a, b);
    if a.len() == 0 {
        assert(a + b =~= b);
        assert(ra.1 + rb.1 =~= rb.1);
    } else if has_delimiter(a) {
        let c = scan_len(a);
        lemma_scan_bounds(a + b);
        assert(step_len(a + b) == c);
        assert((a + b).take(c as int) =~= a.take(c as int));
        assert(feed_spec(s, a + b) == feed_spec(s, a));
        assert((a + b).skip(c as int) =~= a.skip(c as int) + b);
        lemma_drain_append(empty_state(), a.skip(c as int), b);
        let rest = drain(empty_state(), a.skip(c as int));
        assert(ra.0 == rest.0);
        assert(seq![frame_of(feed_spec(s, a))] + rest.1 + rb.1 =~= seq![frame_of(
            feed_spec(s, a),
        )] + (rest.1 + rb.1));
    } else {
        let s1 = feed_spec(s, a);
        assert(step_len(a) == a.len());
        assert(a.skip(a.len() as int) =~= Seq::<u8>::empty());
        assert(drain(s1, Seq::<u8>::empty()) == (s1, Seq::<Option<Seq<u8>>>::empty()));
        assert(ra == (s1, Seq::<Option<Seq<u8>>>::empty()));
        assert(ra.1 + rb.1 =~= rb.1);
        if b.len() == 0 {
            assert(a + b =~= a);
        } else {
            lemma_feed_split(s, a, b);
            lemma_scan_bounds(b);
            lemma_scan_bounds(a + b);
            let cb = scan_len(b);
            assert((a + b).skip((a.len() + cb) as int) =~= b.skip(cb as int));
        }
    }
}

/// Every chunk of `chunks`, one after the other.
pub open spec fn concat(chunks: Seq<Seq<u8>>) -> Seq<u8>
    decreases chunks.len(),
{
    if chunks.len() == 0 {
        Seq::empty()
    } else {
        chunks[0] + concat(chunks.drop_first())
    }
}

/// Draining each chunk of `chunks` in turn: the final state and all frames, in order.
pub open spec fn drain_chunks(s: AccState, chunks: Seq<Seq<u8>>) -> (
    AccState,
    Seq<Option<Seq<u8>>>,
)
    decreases chunks.len(),
{
    if chunks.len() == 0 {
        (s, Seq::empty())
    } else {
        let first = drain(s, chunks[0]);
        let rest = drain_chunks(first.0, chunks.drop_first());
        (rest.0, first.1 + rest.1)
    }
}

/// A byte stream yields the same lines, in the same order, and leaves the same state,
/// whether it arrives in one chunk or split into any number of chunks.
pub proof fn lemma_chunking_invariant(s: AccState, chunks: Seq<Seq<u8>>)
    requires
        state_wf(s),
    ensures
        drain_chunks(s, chunks) == drain(s, concat(chunks)),
    decreases chunks.len(),
{
    if chunks.len() == 0 {
    } else {
        let first = drain(s, chunks[0]);
        lemma_drain_wf(s, chunks[0]);
        lemma_chunking_invariant(first.0, chunks.drop_first());
        lemma_drain_append(s, chunks[0], concat(chunks.drop_first()));
    }
}

/// A line whose bytes, delimiter included, reach the capacity yields exactly one
/// overflow frame, after which the accumulator is empty and no longer discarding.
pub proof fn lemma_overflow_line(line: Seq<u8>)
    requires
        !has_delimiter(line),
        line.len() + 1 >= CAPACITY,
    ensures
        drain(empty_state(), line.push(DELIMITER)) == (empty_state(), seq![None::<Seq<u8>>]),
{
    let b = line.push(DELIMITER);
    let d = seq![DELIMITER];
    assert(line + d =~= b);
    assert(has_delimiter(d));
    assert(scan_len(d.drop_first()) == 0);
    assert(scan_len(d) == 1);
    lemma_scan_append(line, d);
    lemma_scan_bounds(b);
    assert(scan_len(b) == line.len() + 1);
    assert(has_delimiter(b));
    assert(step_len(b) == b.len());
    assert(feed_spec(empty_state(), b) == AccState { buf: Seq::<u8>::empty(), discard: true });
    assert(b.skip(b.len() as int) =~= Seq::<u8>::empty());
    assert(drain(empty_state(), Seq::<u8>::empty()) == (empty_state(), Seq::<Option<Seq<u8>>>::empty()));
    assert(seq![None::<Seq<u8>>] + Seq::<Option<Seq<u8>>>::empty() =~= seq![None::<Seq<u8>>]);
}

/// Status code of the reply to an overflowed line.
pub const OVERFLOW_CODE: i32 = 520;

/// Status code of the reply to a line that does not decode as a request.
pub const PARSE_ERROR_CODE: i32 = 550;

/// Text of the reply to an overflowed line.
pub const OVERFLOW_MESSAGE: &'static str = "command buffer overflow";

/// Text of the reply to a line that does not decode as a request.
pub const PARSE_ERROR_MESSAGE: &'static str = "parse error";

/// The reply to a line that outgrew the buffer.
pub fn overflow_reply() -> (r: Response)
    ensures
        r@ == custom_spec(OVERFLOW_CODE, OVERFLOW_MESSAGE.spec_bytes()),
{
    Response::custom(OVERFLOW_CODE, OVERFLOW_MESSAGE.as_bytes())
}

/// The reply to a line that does not decode as a request.
pub fn parse_error_reply() -> (r: Response)
    ensures
        r@ == custom_spec(PARSE_ERROR_CODE, PARSE_ERROR_MESSAGE.spec_bytes()),
{
    Response::custom(PARSE_ERROR_CODE, PARSE_ERROR_MESSAGE.as_bytes())
}

/// What completing a line yields.
pub enum Frame {
    /// The line outgrew the buffer; its bytes are gone.
    Overflow,
    /// The line's bytes, without the delimiter.
    Line(Vec<u8>),
}

impl View for Frame {
    type V = Option<Seq<u8>>;

    open spec fn view(&self) -> Option<Seq<u8>> {
        match self {
            Frame::Overflow => None,
            Frame::Line(v) => Some(v@),
        }
    }
}

/// The frames' views, in order.
pub open spec fn frames_view(frames: Seq<Frame>) -> Seq<Option<Seq<u8>>> {
    frames.map_values(|f: Frame| f@)
}

/// The accumulator's storage: a heapless vector of `CAPACITY` bytes, which never
/// allocates.
#[verifier::external_body]
pub struct LineBuffer {
    bytes: heapless::Vec<u8, heapless::consts::U256>,
}

/// The bytes a `LineBuffer` holds, in order.
pub uninterp spec fn line_bytes(b: LineBuffer) -> Seq<u8>;

/// Relies on heapless::Vec::new: a new vector holds nothing.
#[verifier::external_body]
fn buffer_new() -> (r: LineBuffer)
    ensures
        line_bytes(r) == Seq::<u8>::empty(),
{
    LineBuffer { bytes: heapless::Vec::new() }
}

/// Relies on heapless::Vec's `Deref` to `[u8]`: the slice of the elements held.
#[verifier::external_body]
fn buffer_as_slice(b: &LineBuffer) -> (r: &[u8])
    ensures
        r@ == line_bytes(*b),
{
    &b.bytes
}

/// Relies on heapless::Vec::capacity: `U256` gives 256 elements.
#[verifier::external_body]
fn buffer_capacity(b: &LineBuffer) -> (r: usize)
    ensures
        r == CAPACITY,
{
    b.bytes.capacity()
}

/// Relies on heapless::Vec::clear: no element is left.
#[verifier::external_body]
fn buffer_clear(b: &mut LineBuffer)
    ensures
        line_bytes(*final(b)) == Seq::<u8>::empty(),
{
    b.bytes.clear()
}

/// Relies on heapless::Vec::extend_from_slice: where `other` fits in what is left of the
/// capacity it is appended and `Ok` returned; else nothing changes and `Err` is returned.
#[verifier::external_body]
fn buffer_extend(b: &mut LineBuffer, other: &[u8]) -> (r: Result<(), ()>)
    ensures
        r is Ok <==> line_bytes(*old(b)).len() + other@.len() <= CAPACITY,
        r is Ok ==> line_bytes(*final(b)) == line_bytes(*old(b)) + other@,
        r is Err ==> line_bytes(*final(b)) == line_bytes(*old(b)),
{
    b.bytes.extend_from_slice(other)
}

/// Assembles received bytes into delimiter-terminated lines within a fixed capacity.
pub struct Server {
    data: LineBuffer,
    discard: bool,
}

impl View for Server {
    type V = AccState;

    closed spec fn view(&self) -> AccState {
        AccState { buf: line_bytes(self.data), discard: self.discard }
    }
}

impl Server {
    /// The accumulator's invariant.
    pub open spec fn wf(&self) -> bool {
        state_wf(self@)
    }

    /// An accumulator at the start of a line.
    pub fn new() -> (r: Server)
        ensures
            r@ == empty_state(),
            r.wf(),
    {
        Server { data: buffer_new(), discard: false }
    }

    /// Consumes `buf` up to and including its first delimiter (all of it if there is
    /// none), storing those bytes unless the line would reach the capacity, in which case
    /// the line is dropped. Returns how many bytes were consumed and whether a line ended.
    pub fn feed(&mut self, buf: &[u8]) -> (r: (usize, bool))
        requires
            old(self).wf(),
        ensures
            final(self)@ == feed_spec(old(self)@, buf@),
            final(self).wf(),
            r.0 == scan_len(buf@),
            r.1 == has_delimiter(buf@),
    {
        proof {
            lemma_feed_wf(self@, buf@);
        }
        let mut i: usize = 0;
        assert(buf@.skip(0) =~= buf@);
        while i < buf.len() && buf[i] != DELIMITER
            invariant
                i <= buf.len(),
                scan_len(buf@) == i + scan_len(buf@.skip(i as int)),
                has_delimiter(buf@) == has_delimiter(buf@.skip(i as int)),
            decreases buf.len() - i,
        {
            assert(buf@.skip(i as int).drop_first() =~= buf@.skip(i + 1));
            i = i + 1;
        }
        let found: bool = i < buf.len();
        let len: usize = if found {
            assert(buf@.skip(i as int)[0] == DELIMITER);
            i + 1
        } else {
            assert(buf@.skip(i as int) =~= Seq::<u8>::empty());
            i
        };
        let held: usize = buffer_as_slice(&self.data).len();
        if len >= buffer_capacity(&self.data) - held {
            self.discard = true;
            buffer_clear(&mut self.data);
        } else if !self.discard && len > 0 {
            let r = buffer_extend(&mut self.data, slice_subrange(buf, 0, len));
            assert(r is Ok);
            assert(buf@.subrange(0, len as int) =~= buf@.take(len as int));
        }
        (len, found)
    }

    /// Ends the current line: the overflow marker if it was dropped, else its bytes
    /// without the delimiter. The accumulator is then at the start of a line.
    pub fn take_frame(&mut self) -> (r: Frame)
        requires
            old(self).wf(),
        ensures
            r@ == frame_of(old(self)@),
            final(self)@ == empty_state(),
            final(self).wf(),
    {
        let r = if self.discard {
            Frame::Overflow
        } else {
            let data = buffer_as_slice(&self.data);
            let n: usize = if data.len() > 0 { data.len() - 1 } else { 0 };
            let mut line: Vec<u8> = Vec::new();
            let mut j: usize = 0;
            while j < n
                invariant
                    j <= n,
                    n <= data.len(),
                    n == strip_delimiter(data@).len(),
                    line@ =~= data@.take(j as int),
                decreases n - j,
            {
                line.push(data[j]);
                assert(data@.take(j + 1) =~= data@.take(j as int).push(data@[j as int]));
                j = j + 1;
            }
            assert(line@ =~= strip_delimiter(data@));
            Frame::Line(line)
        };
        self.discard = false;
        buffer_clear(&mut self.data);
        r
    }

    /// Feeds all of `bytes`, as many times as it takes, and returns the frames of every
    /// line completed on the way, in order.
    pub fn feed_all(&mut self, bytes: &[u8]) -> (r: Vec<Frame>)
        requires
            old(self).wf(),
        ensures
            final(self)@ == drain(old(self)@, bytes@).0,
            frames_view(r@) == drain(old(self)@, bytes@).1,
            final(self).wf(),
    {
        let mut frames: Vec<Frame> = Vec::new();
        let mut pos: usize = 0;
        assert(bytes@.skip(0) =~= bytes@);
        assert(frames_view(frames@) + drain(self@, bytes@).1 =~= drain(self@, bytes@).1);
        while pos < bytes.len()
            invariant
                pos <= bytes.len(),
                self.wf(),
                drain(self@, bytes@.skip(pos as int)).0 == drain(old(self)@, bytes@).0,
                frames_view(frames@) + drain(self@, bytes@.skip(pos as int)).1 == drain(
                    old(self)@,
                    bytes@,
                ).1,
            decreases bytes.len() - pos,
        {
            let ghost rest = bytes@.skip(pos as int);
            let ghost s0 = self@;
            let chunk = slice_subrange(bytes, pos, bytes.len());
            assert(chunk@ =~= rest);
            let (len, found) = self.feed(chunk);
            proof {
                lemma_scan_bounds(rest);
                assert(step_len(rest) == len);
                assert(rest.skip(len as int) =~= bytes@.skip(pos + len));
            }
            if found {
                let f = self.take_frame();
                frames.push(f);
                proof {
                    assert(frames_view(frames@) =~= frames_view(frames@.drop_last()).push(f@));
                    assert(frames@.drop_last() =~= frames@.take(frames@.len() - 1));
                }
            }
            pos = pos + len;
        }
        assert(bytes@.skip(pos as int) =~= Seq::<u8>::empty());
        assert(frames_view(frames@) + Seq::<Option<Seq<u8>>>::empty() =~= frames_view(frames@));
        frames
    }
}

} // verus!
