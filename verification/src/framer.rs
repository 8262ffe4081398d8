//! Line framer: splits a raw byte stream into newline-delimited frames,
//! enforcing a maximum frame length to bound memory against a misbehaving
//! peer.
//!
//! The framer is incremental: bytes arrive in arbitrary chunks through
//! [`LineFramer::feed`], and complete frames are pulled out one at a time
//! through [`LineFramer::next_frame`]. A frame is the bytes before a `\n`
//! delimiter, with one trailing `\r` stripped. A frame longer than the
//! configured maximum is a fatal framing error: the frame boundary is no
//! longer recoverable, so the connection must be closed.

use vstd::prelude::*;

verus! {

/// Fatal error of the byte-stream framing layer.
#[derive(Clone, Copy, Debug, PartialEq, Eq, Structural)]
pub enum FramingError {
    /// The current line exceeds the configured maximum frame length.
    TooLong,
}

/// Result of asking the framer for the next frame.
#[derive(Debug)]
pub enum FrameStep {
    /// A complete frame: the bytes of one line, delimiter removed.
    Frame(Vec<u8>),
    /// No complete frame is buffered; more input bytes are needed.
    NeedMore,
    /// The stream is beyond repair; the connection must be closed.
    Fail(FramingError),
}

pub const NEWLINE: u8 = 10;

pub const CARRIAGE_RETURN: u8 = 13;

/// Some byte of `s` is the newline delimiter.
pub open spec fn has_newline(s: Seq<u8>) -> bool {
    exists|j: int| 0 <= j < s.len() && s[j] == NEWLINE
}

/// `i` is the position of the first newline in `s`.
pub open spec fn first_newline_at(s: Seq<u8>, i: int) -> bool {
    &&& 0 <= i < s.len()
    &&& s[i] == NEWLINE
    &&& forall|j: int| 0 <= j < i ==> s[j] != NEWLINE
}

/// The position of the first newline in `s` (meaningful only when
/// `has_newline(s)`).
pub open spec fn newline_pos(s: Seq<u8>) -> int {
    choose|i: int| first_newline_at(s, i)
}

/// One trailing carriage return is not part of the frame payload.
pub open spec fn strip_cr(s: Seq<u8>) -> Seq<u8> {
    if s.len() > 0 && s[s.len() - 1] == CARRIAGE_RETURN {
        s.drop_last()
    } else {
        s
    }
}

/// The pending bytes hold a complete frame within the length limit.
pub open spec fn frame_ready(p: Seq<u8>, max: nat) -> bool {
    has_newline(p) && newline_pos(p) <= max
}

/// The pending bytes have overrun the length limit: either a delimited line
/// longer than `max`, or more than `max` bytes with no delimiter in sight.
pub open spec fn frame_over_limit(p: Seq<u8>, max: nat) -> bool {
    if has_newline(p) {
        newline_pos(p) > max
    } else {
        p.len() > max
    }
}

/// The payload of the first complete frame of `p`.
pub open spec fn spec_frame(p: Seq<u8>) -> Seq<u8>
    recommends
        has_newline(p),
{
    strip_cr(p.take(newline_pos(p)))
}

/// The bytes that remain pending after the first frame of `p` is consumed.
pub open spec fn spec_rest(p: Seq<u8>) -> Seq<u8>
    recommends
        has_newline(p),
{
    p.skip(newline_pos(p) + 1)
}

/// A sequence that holds a newline has a first newline.
proof fn lemma_first_newline_exists(s: Seq<u8>)
    requires
        has_newline(s),
    ensures
        exists|i: int| first_newline_at(s, i),
    decreases s.len(),
{
    if s[0] == NEWLINE {
        assert(first_newline_at(s, 0));
    } else {
        let t = s.drop_first();
        let j = choose|j: int| 0 <= j < s.len() && s[j] == NEWLINE;
        assert(t[j - 1] == NEWLINE);
        lemma_first_newline_exists(t);
        let i = choose|i: int| first_newline_at(t, i);
        assert(s[i + 1] == NEWLINE);
        assert(forall|k: int| 0 <= k < i + 1 ==> s[k] != NEWLINE) by {
            assert(forall|k: int| 1 <= k < i + 1 ==> s[k] == t[k - 1]);
        }
        assert(first_newline_at(s, i + 1));
    }
}

proof fn lemma_newline_pos(s: Seq<u8>, i: int)
    requires
        first_newline_at(s, i),
    ensures
        newline_pos(s) == i,
{
    let c = newline_pos(s);
    assert(first_newline_at(s, c));
    if c < i {
        assert(s[c] != NEWLINE);
    } else if i < c {
        assert(s[i] != NEWLINE);
    }
}

/// Locate the first newline in `s`.
fn find_newline(s: &[u8]) -> (r: Option<usize>)
    ensures
        match r {
            Some(i) => first_newline_at(s@, i as int),
            None => !has_newline(s@),
        },
{
    let n = s.len();
    let mut i: usize = 0;
    while i < n
        invariant
            0 <= i <= n,
            n == s@.len(),
            forall|j: int| 0 <= j < i ==> s@[j] != NEWLINE,
        decreases n - i,
    {
        if *vstd::slice::slice_index_get(s, i) == NEWLINE {
            return Some(i);
        }
        i += 1;
    }
    None
}

/// Incremental splitter of a byte stream into newline-delimited frames with
/// a maximum frame length.
#[derive(Debug)]
pub struct LineFramer {
    max_length: usize,
    buffer: Vec<u8>,
    failed: bool,
}

impl LineFramer {
    /// The bytes received but not yet handed out as frames.
    pub closed spec fn pending(&self) -> Seq<u8> {
        self.buffer@
    }

    /// The configured maximum frame length.
    pub closed spec fn max(&self) -> nat {
        self.max_length as nat
    }

    /// The framer has reported a fatal error and must not be used further.
    pub closed spec fn failed(&self) -> bool {
        self.failed
    }

    pub fn new(max_length: usize) -> (r: Self)
        ensures
            r.pending() == Seq::<u8>::empty(),
            r.max() == max_length as nat,
            !r.failed(),
    {
        LineFramer { max_length, buffer: Vec::new(), failed: false }
    }

    /// Append a chunk of input bytes. Where the chunk boundaries fall has no
    /// bearing on the frames that come out: only the concatenation counts.
    pub fn feed(&mut self, chunk: &[u8])
        requires
            !old(self).failed(),
        ensures
            final(self).pending() == old(self).pending() + chunk@,
            final(self).max() == old(self).max(),
            !final(self).failed(),
    {
        self.buffer.extend_from_slice(chunk);
    }

    /// Pull the next complete frame out of the pending bytes.
    pub fn next_frame(&mut self) -> (step: FrameStep)
        requires
            !old(self).failed(),
        ensures
            final(self).max() == old(self).max(),
            match step {
                FrameStep::Frame(f) => {
                    &&& frame_ready(old(self).pending(), old(self).max())
                    &&& f@ == spec_frame(old(self).pending())
                    &&& final(self).pending() == spec_rest(old(self).pending())
                    &&& !final(self).failed()
                },
                FrameStep::NeedMore => {
                    &&& !frame_ready(old(self).pending(), old(self).max())
                    &&& !frame_over_limit(old(self).pending(), old(self).max())
                    &&& *final(self) == *old(self)
                },
                FrameStep::Fail(e) => {
                    &&& frame_over_limit(old(self).pending(), old(self).max())
                    &&& e == FramingError::TooLong
                    &&& final(self).failed()
                },
            },
    {
        let ghost p = self.buffer@;
        let buf_len = self.buffer.len();
        match find_newline(self.buffer.as_slice()) {
            Some(i) => {
                proof {
                    lemma_newline_pos(p, i as int);
                    assert(i < buf_len);
                }
                if i <= self.max_length {
                    let end = if i > 0 && self.buffer[i - 1] == CARRIAGE_RETURN {
                        i - 1
                    } else {
                        i
                    };
                    let mut frame: Vec<u8> = Vec::new();
                    let mut j: usize = 0;
                    while j < end
                        invariant
                            0 <= j <= end,
                            end <= i < self.buffer@.len(),
                            self.buffer@ == p,
                            frame@ == p.take(end as int).take(j as int),
                        decreases end - j,
                    {
                        let b = self.buffer[j];
                        frame.push(b);
                        proof {
                            assert(p.take(end as int).take(j + 1) == p.take(end as int).take(
                                j as int,
                            ).push(p[j as int]));
                        }
                        j += 1;
                    }
                    proof {
                        assert(frame@ == p.take(end as int));
                        assert(p.take(end as int) == spec_frame(p)) by {
                            let line = p.take(i as int);
                            if i > 0 && p[i - 1] == CARRIAGE_RETURN {
                                assert(line[line.len() - 1] == CARRIAGE_RETURN);
                                assert(line.drop_last() =~= p.take(end as int));
                            } else {
                                if line.len() > 0 {
                                    assert(line[line.len() - 1] == p[i - 1]);
                                }
                                assert(line =~= p.take(end as int));
                            }
                        }
                    }
                    let tail = self.buffer.split_off(i + 1);
                    self.buffer = tail;
                    proof {
                        assert(self.buffer@ =~= spec_rest(p));
                    }
                    FrameStep::Frame(frame)
                } else {
                    self.failed = true;
                    FrameStep::Fail(FramingError::TooLong)
                }
            },
            None => {
                if self.buffer.len() > self.max_length {
                    self.failed = true;
                    FrameStep::Fail(FramingError::TooLong)
                } else {
                    FrameStep::NeedMore
                }
            },
        }
    }
}

/// All frames extractable from the pending bytes `p` before more input is
/// needed (or before the stream fails its length limit).
pub open spec fn spec_frames(p: Seq<u8>, max: nat) -> Seq<Seq<u8>>
    decreases p.len(),
{
    if frame_ready(p, max) && spec_rest(p).len() < p.len() {
        seq![spec_frame(p)] + spec_frames(spec_rest(p), max)
    } else {
        seq![]
    }
}

/// The bytes still pending after all extractable frames of `p` are consumed.
pub open spec fn spec_leftover(p: Seq<u8>, max: nat) -> Seq<u8>
    decreases p.len(),
{
    if frame_ready(p, max) && spec_rest(p).len() < p.len() {
        spec_leftover(spec_rest(p), max)
    } else {
        p
    }
}

proof fn lemma_rest_shorter(p: Seq<u8>, max: nat)
    requires
        frame_ready(p, max),
    ensures
        spec_rest(p).len() < p.len(),
{
    lemma_first_newline_exists(p);
    let i = newline_pos(p);
    assert(first_newline_at(p, i));
}

/// Extending the pending bytes does not disturb the first frame already
/// delimited in them.
proof fn lemma_first_frame_stable(p: Seq<u8>, q: Seq<u8>, max: nat)
    requires
        frame_ready(p, max),
    ensures
        frame_ready(p + q, max),
        spec_frame(p + q) == spec_frame(p),
        spec_rest(p + q) == spec_rest(p) + q,
{
    lemma_first_newline_exists(p);
    let i = newline_pos(p);
    assert(first_newline_at(p, i));
    assert((p + q)[i] == NEWLINE);
    assert(forall|j: int| 0 <= j < i ==> (p + q)[j] == p[j]);
    assert(first_newline_at(p + q, i));
    lemma_newline_pos(p + q, i);
    assert((p + q).take(i) =~= p.take(i));
    assert(spec_rest(p + q) =~= spec_rest(p) + q);
}

/// The length limit is exact: a delimited line of at most `max` bytes is
/// accepted as a frame, and one of even a single byte more is a framing
/// error.
pub proof fn lemma_frame_length_limit(line: Seq<u8>, rest: Seq<u8>, max: nat)
    requires
        !has_newline(line),
    ensures
        line.len() <= max ==> frame_ready(line + seq![NEWLINE] + rest, max),
        line.len() > max ==> frame_over_limit(line + seq![NEWLINE] + rest, max),
        frame_ready(line + seq![NEWLINE] + rest, max) ==> spec_frame(line + seq![NEWLINE] + rest)
            == strip_cr(line),
{
    let p = line + seq![NEWLINE] + rest;
    let i = line.len() as int;
    assert(p[i] == NEWLINE);
    assert(forall|j: int| 0 <= j < i ==> p[j] == line[j]);
    assert(first_newline_at(p, i));
    lemma_newline_pos(p, i);
    assert(p.take(i) =~= line);
}

/// Framing is chunking-independent: the frames produced from a byte stream
/// depend only on the concatenation of its chunks. Feeding `p` and draining
/// it, then feeding `q`, yields the same frames as feeding `p + q` at once.
pub proof fn lemma_frames_chunking(p: Seq<u8>, q: Seq<u8>, max: nat)
    ensures
        spec_frames(p + q, max) == spec_frames(p, max) + spec_frames(
            spec_leftover(p, max) + q,
            max,
        ),
    decreases p.len(),
{
    if frame_ready(p, max) {
        lemma_rest_shorter(p, max);
        lemma_first_frame_stable(p, q, max);
        lemma_rest_shorter(p + q, max);
        lemma_frames_chunking(spec_rest(p), q, max);
        assert(spec_frames(p + q, max) =~= spec_frames(p, max) + spec_frames(
            spec_leftover(p, max) + q,
            max,
        ));
    } else {
        assert(spec_leftover(p, max) == p);
        assert(spec_frames(p, max) + spec_frames(p + q, max) =~= spec_frames(p + q, max));
    }
}

} // verus!
