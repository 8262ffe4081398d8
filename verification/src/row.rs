//! The normalized row written to the downstream analytics store: every
//! field of the access-log record flattened, together with the per-frame
//! correlation identifier and the process-wide service metadata.

use vstd::prelude::*;

use crate::decimal::spec_number_scaled;
use crate::json::number_wf;
use crate::record::{AccessLogEntry, AccessLogEntryView, Headers, HeadersView};

verus! {

/// The timestamp column keeps milliseconds; the wire timestamp is
/// fractional seconds.
pub const TIMESTAMP_SCALE: usize = 3;

/// The duration column keeps microseconds; the wire duration is fractional
/// seconds.
pub const DURATION_SCALE: usize = 6;

/// One row of the access-log table.
#[derive(Debug)]
pub struct DbAccessLogEntry {
    /// Time-ordered unique identifier of the frame, for correlation and
    /// downstream dedup.
    pub id: u128,
    /// Service name of the application whose logs are being processed.
    pub service: String,
    /// Deployment environment of that application.
    pub environment: String,
    pub level: String,
    /// The record's timestamp, rounded to milliseconds since the epoch.
    pub logger_timestamp: u64,
    pub logger: String,
    pub message: String,
    pub remote_ip: String,
    pub remote_port: String,
    pub client_ip: Option<String>,
    pub protocol: String,
    pub method: String,
    pub host: String,
    pub uri: String,
    pub headers: Headers,
    pub bytes_read: u64,
    pub user_id: Option<String>,
    /// The record's duration, rounded to microseconds.
    pub duration_micros: u64,
    pub size: u64,
    pub status: u16,
    pub response_headers: Headers,
}

pub ghost struct DbAccessLogEntryView {
    pub id: u128,
    pub service: Seq<char>,
    pub environment: Seq<char>,
    pub level: Seq<char>,
    pub logger_timestamp: u64,
    pub logger: Seq<char>,
    pub message: Seq<char>,
    pub remote_ip: Seq<char>,
    pub remote_port: Seq<char>,
    pub client_ip: Option<Seq<char>>,
    pub protocol: Seq<char>,
    pub method: Seq<char>,
    pub host: Seq<char>,
    pub uri: Seq<char>,
    pub headers: HeadersView,
    pub bytes_read: u64,
    pub user_id: Option<Seq<char>>,
    pub duration_micros: u64,
    pub size: u64,
    pub status: u16,
    pub response_headers: HeadersView,
}

impl View for DbAccessLogEntry {
    type V = DbAccessLogEntryView;

    open spec fn view(&self) -> DbAccessLogEntryView {
        DbAccessLogEntryView {
            id: self.id,
            service: self.service@,
            environment: self.environment@,
            level: self.level@,
            logger_timestamp: self.logger_timestamp,
            logger: self.logger@,
            message: self.message@,
            remote_ip: self.remote_ip@,
            remote_port: self.remote_port@,
            client_ip: self.client_ip.deep_view(),
            protocol: self.protocol@,
            method: self.method@,
            host: self.host@,
            uri: self.uri@,
            headers: self.headers.deep_view(),
            bytes_read: self.bytes_read,
            user_id: self.user_id.deep_view(),
            duration_micros: self.duration_micros,
            size: self.size,
            status: self.status,
            response_headers: self.response_headers.deep_view(),
        }
    }
}

/// The row a record normalizes to: every record field verbatim, the
/// timestamp as milliseconds (`round(ts * 1000)`, saturating), the duration
/// as microseconds, and the given identifier and service metadata.
pub open spec fn spec_row(
    id: u128,
    service: Seq<char>,
    environment: Seq<char>,
    entry: AccessLogEntryView,
) -> DbAccessLogEntryView {
    DbAccessLogEntryView {
        id: id,
        service: service,
        environment: environment,
        level: entry.meta.level,
        logger_timestamp: spec_number_scaled(entry.meta.timestamp, TIMESTAMP_SCALE as nat),
        logger: entry.meta.logger,
        message: entry.meta.message,
        remote_ip: entry.request.remote_ip,
        remote_port: entry.request.remote_port,
        client_ip: entry.request.client_ip,
        protocol: entry.request.protocol,
        method: entry.request.method,
        host: entry.request.host,
        uri: entry.request.uri,
        headers: entry.request.headers,
        bytes_read: entry.bytes_read,
        user_id: entry.user_id,
        duration_micros: spec_number_scaled(entry.duration, DURATION_SCALE as nat),
        size: entry.size,
        status: entry.status,
        response_headers: entry.response_headers,
    }
}

impl DbAccessLogEntry {
    /// Flatten a parsed record into a row under the given frame identifier
    /// and process-wide service metadata.
    pub fn new(id: u128, service: &str, environment: &str, entry: AccessLogEntry) -> (r: Self)
        requires
            number_wf(entry.meta.timestamp@),
            number_wf(entry.duration@),
        ensures
            r@ == spec_row(id, service@, environment@, entry@),
    {
        let AccessLogEntry {
            meta,
            request,
            bytes_read,
            user_id,
            duration,
            size,
            status,
            response_headers,
        } = entry;
        let logger_timestamp = meta.timestamp.scaled_u64(TIMESTAMP_SCALE);
        let duration_micros = duration.scaled_u64(DURATION_SCALE);
        DbAccessLogEntry {
            id,
            service: service.to_owned(),
            environment: environment.to_owned(),
            level: meta.level,
            logger_timestamp,
            logger: meta.logger,
            message: meta.message,
            remote_ip: request.remote_ip,
            remote_port: request.remote_port,
            client_ip: request.client_ip,
            protocol: request.protocol,
            method: request.method,
            host: request.host,
            uri: request.uri,
            headers: request.headers,
            bytes_read,
            user_id,
            duration_micros,
            size,
            status,
            response_headers,
        }
    }
}

} // verus!
