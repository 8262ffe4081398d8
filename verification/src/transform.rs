//! Record Transformer: one frame of text in, one normalized row out.
//!
//! A pure function of the frame, the process-wide service metadata, and the
//! freshly generated frame identifier. A malformed frame — bytes that are
//! not UTF-8, text that is not one JSON object, a record with a missing,
//! duplicated, or mistyped field — yields a parse failure for that frame
//! only; it never affects any other frame.

use vstd::prelude::*;
use vstd::utf8::valid_utf8;

use crate::record::{parse_record, spec_record, AccessLogEntryView};
use crate::row::{spec_row, DbAccessLogEntry};

verus! {

/// Failure of the per-frame transformation.
#[derive(Clone, Copy, Debug, PartialEq, Eq, Structural)]
pub enum TransformError {
    /// The frame is not a well-formed access-log record.
    Parse,
}

/// The frames on which transformation succeeds: the bytes are UTF-8 and
/// hold exactly one well-formed access-log record.
pub open spec fn spec_transform_ok(frame: Seq<u8>) -> bool {
    valid_utf8(frame) && spec_record(frame) is Some
}

/// The record a well-formed frame holds.
pub open spec fn spec_frame_record(frame: Seq<u8>) -> AccessLogEntryView
    recommends
        spec_transform_ok(frame),
{
    spec_record(frame)->Some_0
}

/// Transform one frame into a row, under a fresh frame identifier and the
/// process-wide service metadata. Succeeds exactly on well-formed frames
/// and then returns the record's row, verbatim.
pub fn transform_frame(frame: &[u8], id: u128, service: &str, environment: &str) -> (r: Result<
    DbAccessLogEntry,
    TransformError,
>)
    ensures
        r is Ok <==> spec_transform_ok(frame@),
        (r matches Ok(row) ==> row@ == spec_row(
            id,
            service@,
            environment@,
            spec_frame_record(frame@),
        )),
        (r matches Err(e) ==> e == TransformError::Parse),
{
    let bytes = vstd::slice::slice_to_vec(frame);
    if !crate::record::frame_is_utf8(bytes) {
        return Err(TransformError::Parse);
    }
    match parse_record(frame) {
        Some(entry) => Ok(DbAccessLogEntry::new(id, service, environment, entry)),
        None => Err(TransformError::Parse),
    }
}

} // verus!
