//! Connection Handler: the per-connection pipeline as a verified state
//! machine.
//!
//! Bytes read from the socket are fed in; the handler splits them into
//! frames, transforms each frame, and tells its caller what to do next:
//! read more bytes, insert a row, skip a malformed frame, or close the
//! connection. The caller (the task that owns the socket) performs the
//! reads and the inserts; every decision in between is made here.
//!
//! Frames of one connection are handled strictly in arrival order: each
//! call consumes at most the first pending frame. A malformed frame never
//! closes the connection; a frame over the length limit always does, since
//! the frame boundary is then unrecoverable. A pool or insert failure is
//! handled by the caller by dropping that one record and polling again;
//! the handler's state does not change on such a failure.

use vstd::prelude::*;

use crate::framer::{
    frame_over_limit, frame_ready, spec_frame, spec_rest, FrameStep, FramingError, LineFramer,
};
use crate::row::{spec_row, DbAccessLogEntry};
use crate::transform::{spec_frame_record, spec_transform_ok, transform_frame, TransformError};

verus! {

/// What the connection's task must do next.
#[derive(Debug)]
pub enum Action {
    /// No complete frame is pending: read more bytes, or end the task
    /// cleanly if the stream has ended.
    NeedRead,
    /// A frame was transformed: acquire a pooled client and insert this
    /// row. On pool or insert failure, log and drop the row; the
    /// connection continues either way.
    Insert(DbAccessLogEntry),
    /// The frame was malformed: log the failure and poll again. The
    /// connection stays open.
    SkipMalformed(TransformError),
    /// The stream is beyond repair: close the connection.
    Close(FramingError),
}

/// The verified per-connection pipeline state.
#[derive(Debug)]
pub struct Connection {
    framer: LineFramer,
    service: String,
    environment: String,
    open: bool,
}

impl Connection {
    /// The bytes received but not yet consumed as frames.
    pub closed spec fn pending(&self) -> Seq<u8> {
        self.framer.pending()
    }

    /// The maximum frame length.
    pub closed spec fn max(&self) -> nat {
        self.framer.max()
    }

    /// The connection accepts further input.
    pub closed spec fn is_open(&self) -> bool {
        self.open
    }

    pub closed spec fn service_name(&self) -> Seq<char> {
        self.service@
    }

    pub closed spec fn environment_name(&self) -> Seq<char> {
        self.environment@
    }

    pub closed spec fn wf(&self) -> bool {
        self.open ==> !self.framer.failed()
    }

    /// Whether the connection accepts further input.
    pub fn open(&self) -> (r: bool)
        ensures
            r == self.is_open(),
    {
        self.open
    }

    pub fn new(service: String, environment: String, max_length: usize) -> (r: Self)
        ensures
            r.wf(),
            r.is_open(),
            r.pending() == Seq::<u8>::empty(),
            r.max() == max_length as nat,
            r.service_name() == service@,
            r.environment_name() == environment@,
    {
        Connection { framer: LineFramer::new(max_length), service, environment, open: true }
    }

    /// Feed one chunk of bytes read from the socket. Chunk boundaries are
    /// immaterial: only the concatenation of the fed bytes counts.
    pub fn feed(&mut self, chunk: &[u8])
        requires
            old(self).wf(),
            old(self).is_open(),
        ensures
            final(self).wf(),
            final(self).is_open(),
            final(self).pending() == old(self).pending() + chunk@,
            final(self).max() == old(self).max(),
            final(self).service_name() == old(self).service_name(),
            final(self).environment_name() == old(self).environment_name(),
    {
        self.framer.feed(chunk);
    }

    /// Decide the next step for this connection, under a fresh frame
    /// identifier. Consumes at most the first pending frame.
    pub fn next_action(&mut self, id: u128) -> (a: Action)
        requires
            old(self).wf(),
            old(self).is_open(),
        ensures
            final(self).wf(),
            final(self).max() == old(self).max(),
            final(self).service_name() == old(self).service_name(),
            final(self).environment_name() == old(self).environment_name(),
            match a {
                Action::NeedRead => {
                    &&& !frame_ready(old(self).pending(), old(self).max())
                    &&& !frame_over_limit(old(self).pending(), old(self).max())
                    &&& *final(self) == *old(self)
                },
                Action::Insert(row) => {
                    &&& frame_ready(old(self).pending(), old(self).max())
                    &&& spec_transform_ok(spec_frame(old(self).pending()))
                    &&& row@ == spec_row(
                        id,
                        old(self).service_name(),
                        old(self).environment_name(),
                        spec_frame_record(spec_frame(old(self).pending())),
                    )
                    &&& final(self).pending() == spec_rest(old(self).pending())
                    &&& final(self).is_open()
                },
                Action::SkipMalformed(e) => {
                    &&& frame_ready(old(self).pending(), old(self).max())
                    &&& !spec_transform_ok(spec_frame(old(self).pending()))
                    &&& e == TransformError::Parse
                    &&& final(self).pending() == spec_rest(old(self).pending())
                    &&& final(self).is_open()
                },
                Action::Close(e) => {
                    &&& frame_over_limit(old(self).pending(), old(self).max())
                    &&& e == FramingError::TooLong
                    &&& !final(self).is_open()
                },
            },
    {
        match self.framer.next_frame() {
            FrameStep::NeedMore => Action::NeedRead,
            FrameStep::Frame(frame) => {
                match transform_frame(frame.as_slice(), id, self.service.as_str(),
                    self.environment.as_str()) {
                    Ok(row) => Action::Insert(row),
                    Err(e) => Action::SkipMalformed(e),
                }
            },
            FrameStep::Fail(e) => {
                self.open = false;
                Action::Close(e)
            },
        }
    }

    /// Decide the next step under a freshly generated frame identifier.
    pub fn poll(&mut self) -> (a: Action)
        requires
            old(self).wf(),
            old(self).is_open(),
        ensures
            final(self).wf(),
            final(self).max() == old(self).max(),
            final(self).service_name() == old(self).service_name(),
            final(self).environment_name() == old(self).environment_name(),
            match a {
                Action::NeedRead => {
                    &&& !frame_ready(old(self).pending(), old(self).max())
                    &&& !frame_over_limit(old(self).pending(), old(self).max())
                    &&& *final(self) == *old(self)
                },
                Action::Insert(row) => {
                    &&& frame_ready(old(self).pending(), old(self).max())
                    &&& spec_transform_ok(spec_frame(old(self).pending()))
                    &&& row@ == spec_row(
                        row@.id,
                        old(self).service_name(),
                        old(self).environment_name(),
                        spec_frame_record(spec_frame(old(self).pending())),
                    )
                    &&& final(self).pending() == spec_rest(old(self).pending())
                    &&& final(self).is_open()
                },
                Action::SkipMalformed(e) => {
                    &&& frame_ready(old(self).pending(), old(self).max())
                    &&& !spec_transform_ok(spec_frame(old(self).pending()))
                    &&& e == TransformError::Parse
                    &&& final(self).pending() == spec_rest(old(self).pending())
                    &&& final(self).is_open()
                },
                Action::Close(e) => {
                    &&& frame_over_limit(old(self).pending(), old(self).max())
                    &&& e == FramingError::TooLong
                    &&& !final(self).is_open()
                },
            },
    {
        let id = new_frame_id();
        self.next_action(id)
    }
}

/// Relies on `uuid::Uuid::now_v7`: a freshly generated, time-ordered
/// version-7 identifier. Nothing is assumed beyond the version bits; in
/// particular, two calls may return anything.
#[verifier::external_body]
fn new_frame_id() -> (r: u128)
    ensures
        (r >> 76) & 0xF == 7,
{
    uuid::Uuid::now_v7().as_u128()
}

} // verus!
