//! The wire-level access-log record: one JSON object per frame.
//!
//! The record is parsed by a schema-directed JSON parser over the frame's
//! bytes. Fields may arrive in any order; unknown fields are skipped after
//! validation; a missing required field, a duplicated field, or a type
//! mismatch is a parse failure, as it is for the customary JSON
//! deserializer of such a record. The parser's behaviour is specified
//! exactly by the `spec_record` function family.

use vstd::prelude::*;
use vstd::utf8::{decode_utf8, valid_utf8};

use crate::decimal::spec_number_as_u64;
use crate::json::{
    number_wf, parse_number, parse_string_tail, skip_value, skip_ws, spec_number, spec_skip_value,
    spec_string_tail, spec_ws, JsonNumber, NumberView, COLON, COMMA, LBRACE, LBRACKET, QUOTE,
    RBRACE, RBRACKET, SKIP_DEPTH_LIMIT,
};

verus! {

/// An ordered list of header name / values pairs, in input order.
pub type Headers = Vec<(String, Vec<String>)>;

pub type HeadersView = Seq<(Seq<char>, Seq<Seq<char>>)>;

/// General information about the log entry.
#[derive(Debug)]
pub struct Meta {
    /// The log level.
    pub level: String,
    /// The timestamp of the log entry, in fractional epoch seconds, kept as
    /// the exact decimal number token (`ts` on the wire).
    pub timestamp: JsonNumber,
    /// The logger name.
    pub logger: String,
    /// The log message (`msg` on the wire).
    pub message: String,
}

pub ghost struct MetaView {
    pub level: Seq<char>,
    pub timestamp: NumberView,
    pub logger: Seq<char>,
    pub message: Seq<char>,
}

impl View for Meta {
    type V = MetaView;

    open spec fn view(&self) -> MetaView {
        MetaView {
            level: self.level@,
            timestamp: self.timestamp@,
            logger: self.logger@,
            message: self.message@,
        }
    }
}

/// Information about the request, as the upstream server reports it.
#[derive(Debug)]
pub struct RequestInfo {
    pub remote_ip: String,
    pub remote_port: String,
    pub client_ip: Option<String>,
    /// `proto` on the wire.
    pub protocol: String,
    pub method: String,
    pub host: String,
    pub uri: String,
    pub headers: Headers,
}

pub ghost struct RequestInfoView {
    pub remote_ip: Seq<char>,
    pub remote_port: Seq<char>,
    pub client_ip: Option<Seq<char>>,
    pub protocol: Seq<char>,
    pub method: Seq<char>,
    pub host: Seq<char>,
    pub uri: Seq<char>,
    pub headers: HeadersView,
}

impl View for RequestInfo {
    type V = RequestInfoView;

    open spec fn view(&self) -> RequestInfoView {
        RequestInfoView {
            remote_ip: self.remote_ip@,
            remote_port: self.remote_port@,
            client_ip: self.client_ip.deep_view(),
            protocol: self.protocol@,
            method: self.method@,
            host: self.host@,
            uri: self.uri@,
            headers: self.headers.deep_view(),
        }
    }
}

/// One access-log record, as parsed from a frame.
#[derive(Debug)]
pub struct AccessLogEntry {
    pub meta: Meta,
    pub request: RequestInfo,
    pub bytes_read: u64,
    pub user_id: Option<String>,
    /// Request duration in fractional seconds, kept as the exact decimal
    /// number token.
    pub duration: JsonNumber,
    pub size: u64,
    pub status: u16,
    /// `resp_headers` on the wire.
    pub response_headers: Headers,
}

pub ghost struct AccessLogEntryView {
    pub meta: MetaView,
    pub request: RequestInfoView,
    pub bytes_read: u64,
    pub user_id: Option<Seq<char>>,
    pub duration: NumberView,
    pub size: u64,
    pub status: u16,
    pub response_headers: HeadersView,
}

impl View for AccessLogEntry {
    type V = AccessLogEntryView;

    open spec fn view(&self) -> AccessLogEntryView {
        AccessLogEntryView {
            meta: self.meta@,
            request: self.request@,
            bytes_read: self.bytes_read,
            user_id: self.user_id.deep_view(),
            duration: self.duration@,
            size: self.size,
            status: self.status,
            response_headers: self.response_headers.deep_view(),
        }
    }
}

/// A string literal at `i` (opening quote included), decoded to characters.
pub open spec fn spec_string_chars(s: Seq<u8>, i: int) -> Option<(Seq<char>, int)> {
    if 0 <= i < s.len() && s[i] == QUOTE {
        match spec_string_tail(s, i + 1, Seq::empty()) {
            Some(p) => if valid_utf8(p.0) {
                Some((decode_utf8(p.0), p.1))
            } else {
                None
            },
            None => None,
        }
    } else {
        None
    }
}

/// `null` at `i`.
pub open spec fn spec_null(s: Seq<u8>, i: int) -> bool {
    &&& 0 <= i
    &&& i + 4 <= s.len()
    &&& s[i] == 110
    &&& s[i + 1] == 117
    &&& s[i + 2] == 108
    &&& s[i + 3] == 108
}

/// A string or `null` at `i`, for an optional field.
pub open spec fn spec_opt_string_chars(s: Seq<u8>, i: int) -> Option<(Option<Seq<char>>, int)> {
    if spec_null(s, i) {
        Some((None, i + 4))
    } else {
        match spec_string_chars(s, i) {
            Some(p) => Some((Some(p.0), p.1)),
            None => None,
        }
    }
}

/// An unsigned integer value at `i`, as an unsigned-integer field reads it.
pub open spec fn spec_u64_value(s: Seq<u8>, i: int) -> Option<(u64, int)> {
    match spec_number(s, i) {
        Some(p) => match spec_number_as_u64(p.0) {
            Some(u) => Some((u, p.1)),
            None => None,
        },
        None => None,
    }
}

pub open spec fn spec_u16_value(s: Seq<u8>, i: int) -> Option<(u16, int)> {
    match spec_u64_value(s, i) {
        Some(p) => if p.0 <= 0xFFFF {
            Some((p.0 as u16, p.1))
        } else {
            None
        },
        None => None,
    }
}

/// The string elements of a header-value array, from the first element.
pub open spec fn spec_header_values_items(s: Seq<u8>, i: int, acc: Seq<Seq<char>>) -> Option<
    (Seq<Seq<char>>, int),
>
    decreases s.len() - i,
{
    if !(0 <= i <= s.len()) {
        None
    } else {
        match spec_string_chars(s, i) {
            Some(vp) => {
                let c = spec_ws(s, vp.1);
                if c < s.len() && s[c] == COMMA {
                    let nx = spec_ws(s, c + 1);
                    if nx <= i || nx > s.len() {
                        None
                    } else {
                        spec_header_values_items(s, nx, acc.push(vp.0))
                    }
                } else if c < s.len() && s[c] == RBRACKET {
                    Some((acc.push(vp.0), c + 1))
                } else {
                    None
                }
            },
            None => None,
        }
    }
}

/// A header-value array at `i`: `[` strings `]`.
pub open spec fn spec_header_values(s: Seq<u8>, i: int) -> Option<(Seq<Seq<char>>, int)> {
    if 0 <= i < s.len() && s[i] == LBRACKET {
        let j = spec_ws(s, i + 1);
        if j < s.len() && s[j] == RBRACKET {
            Some((Seq::empty(), j + 1))
        } else {
            spec_header_values_items(s, j, Seq::empty())
        }
    } else {
        None
    }
}

/// The members of a headers object, from the first key.
pub open spec fn spec_headers_members(s: Seq<u8>, i: int, acc: HeadersView) -> Option<
    (HeadersView, int),
>
    decreases s.len() - i,
{
    if !(0 <= i <= s.len()) {
        None
    } else {
        match spec_string_chars(s, i) {
            Some(kp) => {
                let m = spec_ws(s, kp.1);
                if !(m < s.len() && s[m] == COLON) {
                    None
                } else {
                    match spec_header_values(s, spec_ws(s, m + 1)) {
                        Some(vp) => {
                            let acc2 = acc.push((kp.0, vp.0));
                            let c = spec_ws(s, vp.1);
                            if c < s.len() && s[c] == COMMA {
                                let nx = spec_ws(s, c + 1);
                                if nx <= i || nx > s.len() {
                                    None
                                } else {
                                    spec_headers_members(s, nx, acc2)
                                }
                            } else if c < s.len() && s[c] == RBRACE {
                                Some((acc2, c + 1))
                            } else {
                                None
                            }
                        },
                        None => None,
                    }
                }
            },
            None => None,
        }
    }
}

/// A headers mapping at `i`: an object of header name to value array, kept
/// in input order.
pub open spec fn spec_headers(s: Seq<u8>, i: int) -> Option<(HeadersView, int)> {
    if 0 <= i < s.len() && s[i] == LBRACE {
        let j = spec_ws(s, i + 1);
        if j < s.len() && s[j] == RBRACE {
            Some((Seq::empty(), j + 1))
        } else {
            spec_headers_members(s, j, Seq::empty())
        }
    } else {
        None
    }
}

pub ghost struct RequestPartialView {
    pub remote_ip: Option<Seq<char>>,
    pub remote_port: Option<Seq<char>>,
    pub client_ip: Option<Option<Seq<char>>>,
    pub protocol: Option<Seq<char>>,
    pub method: Option<Seq<char>>,
    pub host: Option<Seq<char>>,
    pub uri: Option<Seq<char>>,
    pub headers: Option<HeadersView>,
}

pub open spec fn empty_request_partial() -> RequestPartialView {
    RequestPartialView {
        remote_ip: None,
        remote_port: None,
        client_ip: None,
        protocol: None,
        method: None,
        host: None,
        uri: None,
        headers: None,
    }
}

/// One field of the request object, by key; an unknown key's value is
/// validated and skipped. A key already seen is a parse failure.
pub open spec fn spec_request_field(
    s: Seq<u8>,
    v: int,
    key: Seq<char>,
    acc: RequestPartialView,
) -> Option<(RequestPartialView, int)> {
    if key == "remote_ip"@ {
        if acc.remote_ip is Some {
            None
        } else {
            match spec_string_chars(s, v) {
                Some(p) => Some((RequestPartialView { remote_ip: Some(p.0), ..acc }, p.1)),
                None => None,
            }
        }
    } else if key == "remote_port"@ {
        if acc.remote_port is Some {
            None
        } else {
            match spec_string_chars(s, v) {
                Some(p) => Some((RequestPartialView { remote_port: Some(p.0), ..acc }, p.1)),
                None => None,
            }
        }
    } else if key == "client_ip"@ {
        if acc.client_ip is Some {
            None
        } else {
            match spec_opt_string_chars(s, v) {
                Some(p) => Some((RequestPartialView { client_ip: Some(p.0), ..acc }, p.1)),
                None => None,
            }
        }
    } else if key == "proto"@ {
        if acc.protocol is Some {
            None
        } else {
            match spec_string_chars(s, v) {
                Some(p) => Some((RequestPartialView { protocol: Some(p.0), ..acc }, p.1)),
                None => None,
            }
        }
    } else if key == "method"@ {
        if acc.method is Some {
            None
        } else {
            match spec_string_chars(s, v) {
                Some(p) => Some((RequestPartialView { method: Some(p.0), ..acc }, p.1)),
                None => None,
            }
        }
    } else if key == "host"@ {
        if acc.host is Some {
            None
        } else {
            match spec_string_chars(s, v) {
                Some(p) => Some((RequestPartialView { host: Some(p.0), ..acc }, p.1)),
                None => None,
            }
        }
    } else if key == "uri"@ {
        if acc.uri is Some {
            None
        } else {
            match spec_string_chars(s, v) {
                Some(p) => Some((RequestPartialView { uri: Some(p.0), ..acc }, p.1)),
                None => None,
            }
        }
    } else if key == "headers"@ {
        if acc.headers is Some {
            None
        } else {
            match spec_headers(s, v) {
                Some(p) => Some((RequestPartialView { headers: Some(p.0), ..acc }, p.1)),
                None => None,
            }
        }
    } else {
        match spec_skip_value(s, v, SKIP_DEPTH_LIMIT) {
            Some(j) => Some((acc, j)),
            None => None,
        }
    }
}

/// The members of the request object, from the first key.
pub open spec fn spec_request_members(s: Seq<u8>, i: int, acc: RequestPartialView) -> Option<
    (RequestPartialView, int),
>
    decreases s.len() - i,
{
    if !(0 <= i <= s.len()) {
        None
    } else {
        match spec_string_chars(s, i) {
            Some(kp) => {
                let m = spec_ws(s, kp.1);
                if !(m < s.len() && s[m] == COLON) {
                    None
                } else {
                    let v = spec_ws(s, m + 1);
                    if v < i || v > s.len() {
                        None
                    } else {
                        match spec_request_field(s, v, kp.0, acc) {
                            Some(fp) => {
                                let c = spec_ws(s, fp.1);
                                if c < s.len() && s[c] == COMMA {
                                    let nx = spec_ws(s, c + 1);
                                    if nx <= i || nx > s.len() {
                                        None
                                    } else {
                                        spec_request_members(s, nx, fp.0)
                                    }
                                } else if c < s.len() && s[c] == RBRACE {
                                    Some((fp.0, c + 1))
                                } else {
                                    None
                                }
                            },
                            None => None,
                        }
                    }
                }
            },
            None => None,
        }
    }
}

/// A complete request object: every required field present exactly once.
pub open spec fn spec_build_request(acc: RequestPartialView) -> Option<RequestInfoView> {
    if acc.remote_ip is Some && acc.remote_port is Some && acc.protocol is Some && acc.method
        is Some && acc.host is Some && acc.uri is Some && acc.headers is Some {
        Some(
            RequestInfoView {
                remote_ip: acc.remote_ip->Some_0,
                remote_port: acc.remote_port->Some_0,
                client_ip: if acc.client_ip is Some {
                    acc.client_ip->Some_0
                } else {
                    None
                },
                protocol: acc.protocol->Some_0,
                method: acc.method->Some_0,
                host: acc.host->Some_0,
                uri: acc.uri->Some_0,
                headers: acc.headers->Some_0,
            },
        )
    } else {
        None
    }
}

/// A request object at `i`.
pub open spec fn spec_request(s: Seq<u8>, i: int) -> Option<(RequestInfoView, int)> {
    if 0 <= i < s.len() && s[i] == LBRACE {
        let j = spec_ws(s, i + 1);
        let mp = if j < s.len() && s[j] == RBRACE {
            Some((empty_request_partial(), j + 1))
        } else {
            spec_request_members(s, j, empty_request_partial())
        };
        match mp {
            Some(p) => match spec_build_request(p.0) {
                Some(r) => Some((r, p.1)),
                None => None,
            },
            None => None,
        }
    } else {
        None
    }
}

pub ghost struct RecordPartialView {
    pub level: Option<Seq<char>>,
    pub timestamp: Option<NumberView>,
    pub logger: Option<Seq<char>>,
    pub message: Option<Seq<char>>,
    pub request: Option<RequestInfoView>,
    pub bytes_read: Option<u64>,
    pub user_id: Option<Option<Seq<char>>>,
    pub duration: Option<NumberView>,
    pub size: Option<u64>,
    pub status: Option<u16>,
    pub response_headers: Option<HeadersView>,
}

pub open spec fn empty_record_partial() -> RecordPartialView {
    RecordPartialView {
        level: None,
        timestamp: None,
        logger: None,
        message: None,
        request: None,
        bytes_read: None,
        user_id: None,
        duration: None,
        size: None,
        status: None,
        response_headers: None,
    }
}

/// One field of the record object, by key; an unknown key's value is
/// validated and skipped. A key already seen is a parse failure.
pub open spec fn spec_record_field(
    s: Seq<u8>,
    v: int,
    key: Seq<char>,
    acc: RecordPartialView,
) -> Option<(RecordPartialView, int)> {
    if key == "level"@ {
        if acc.level is Some {
            None
        } else {
            match spec_string_chars(s, v) {
                Some(p) => Some((RecordPartialView { level: Some(p.0), ..acc }, p.1)),
                None => None,
            }
        }
    } else if key == "ts"@ {
        if acc.timestamp is Some {
            None
        } else {
            match spec_number(s, v) {
                Some(p) => Some((RecordPartialView { timestamp: Some(p.0), ..acc }, p.1)),
                None => None,
            }
        }
    } else if key == "logger"@ {
        if acc.logger is Some {
            None
        } else {
            match spec_string_chars(s, v) {
                Some(p) => Some((RecordPartialView { logger: Some(p.0), ..acc }, p.1)),
                None => None,
            }
        }
    } else if key == "msg"@ {
        if acc.message is Some {
            None
        } else {
            match spec_string_chars(s, v) {
                Some(p) => Some((RecordPartialView { message: Some(p.0), ..acc }, p.1)),
                None => None,
            }
        }
    } else if key == "request"@ {
        if acc.request is Some {
            None
        } else {
            match spec_request(s, v) {
                Some(p) => Some((RecordPartialView { request: Some(p.0), ..acc }, p.1)),
                None => None,
            }
        }
    } else if key == "bytes_read"@ {
        if acc.bytes_read is Some {
            None
        } else {
            match spec_u64_value(s, v) {
                Some(p) => Some((RecordPartialView { bytes_read: Some(p.0), ..acc }, p.1)),
                None => None,
            }
        }
    } else if key == "user_id"@ {
        if acc.user_id is Some {
            None
        } else {
            match spec_opt_string_chars(s, v) {
                Some(p) => Some((RecordPartialView { user_id: Some(p.0), ..acc }, p.1)),
                None => None,
            }
        }
    } else if key == "duration"@ {
        if acc.duration is Some {
            None
        } else {
            match spec_number(s, v) {
                Some(p) => Some((RecordPartialView { duration: Some(p.0), ..acc }, p.1)),
                None => None,
            }
        }
    } else if key == "size"@ {
        if acc.size is Some {
            None
        } else {
            match spec_u64_value(s, v) {
                Some(p) => Some((RecordPartialView { size: Some(p.0), ..acc }, p.1)),
                None => None,
            }
        }
    } else if key == "status"@ {
        if acc.status is Some {
            None
        } else {
            match spec_u16_value(s, v) {
                Some(p) => Some((RecordPartialView { status: Some(p.0), ..acc }, p.1)),
                None => None,
            }
        }
    } else if key == "resp_headers"@ {
        if acc.response_headers is Some {
            None
        } else {
            match spec_headers(s, v) {
                Some(p) => Some((RecordPartialView { response_headers: Some(p.0), ..acc }, p.1)),
                None => None,
            }
        }
    } else {
        match spec_skip_value(s, v, SKIP_DEPTH_LIMIT) {
            Some(j) => Some((acc, j)),
            None => None,
        }
    }
}

/// The members of the record object, from the first key.
pub open spec fn spec_record_members(s: Seq<u8>, i: int, acc: RecordPartialView) -> Option<
    (RecordPartialView, int),
>
    decreases s.len() - i,
{
    if !(0 <= i <= s.len()) {
        None
    } else {
        match spec_string_chars(s, i) {
            Some(kp) => {
                let m = spec_ws(s, kp.1);
                if !(m < s.len() && s[m] == COLON) {
                    None
                } else {
                    let v = spec_ws(s, m + 1);
                    if v < i || v > s.len() {
                        None
                    } else {
                        match spec_record_field(s, v, kp.0, acc) {
                            Some(fp) => {
                                let c = spec_ws(s, fp.1);
                                if c < s.len() && s[c] == COMMA {
                                    let nx = spec_ws(s, c + 1);
                                    if nx <= i || nx > s.len() {
                                        None
                                    } else {
                                        spec_record_members(s, nx, fp.0)
                                    }
                                } else if c < s.len() && s[c] == RBRACE {
                                    Some((fp.0, c + 1))
                                } else {
                                    None
                                }
                            },
                            None => None,
                        }
                    }
                }
            },
            None => None,
        }
    }
}

/// A complete record: every required field present exactly once; the
/// optional `user_id` may be absent or `null`.
pub open spec fn spec_build_record(acc: RecordPartialView) -> Option<AccessLogEntryView> {
    if acc.level is Some && acc.timestamp is Some && acc.logger is Some && acc.message is Some
        && acc.request is Some && acc.bytes_read is Some && acc.duration is Some && acc.size
        is Some && acc.status is Some && acc.response_headers is Some {
        Some(
            AccessLogEntryView {
                meta: MetaView {
                    level: acc.level->Some_0,
                    timestamp: acc.timestamp->Some_0,
                    logger: acc.logger->Some_0,
                    message: acc.message->Some_0,
                },
                request: acc.request->Some_0,
                bytes_read: acc.bytes_read->Some_0,
                user_id: if acc.user_id is Some {
                    acc.user_id->Some_0
                } else {
                    None
                },
                duration: acc.duration->Some_0,
                size: acc.size->Some_0,
                status: acc.status->Some_0,
                response_headers: acc.response_headers->Some_0,
            },
        )
    } else {
        None
    }
}

/// The access-log record held in a whole frame: one JSON object with
/// nothing but whitespace around it.
pub open spec fn spec_record(s: Seq<u8>) -> Option<AccessLogEntryView> {
    let i = spec_ws(s, 0);
    if i < s.len() && s[i] == LBRACE {
        let j = spec_ws(s, i + 1);
        let mp = if j < s.len() && s[j] == RBRACE {
            Some((empty_record_partial(), j + 1))
        } else {
            spec_record_members(s, j, empty_record_partial())
        };
        match mp {
            Some(p) => {
                if spec_ws(s, p.1) == s.len() {
                    spec_build_record(p.0)
                } else {
                    None
                }
            },
            None => None,
        }
    } else {
        None
    }
}

impl DeepView for JsonNumber {
    type V = NumberView;

    open spec fn deep_view(&self) -> NumberView {
        self@
    }
}

impl DeepView for RequestInfo {
    type V = RequestInfoView;

    open spec fn deep_view(&self) -> RequestInfoView {
        self@
    }
}

/// Relies on `String::from_utf8`: succeeds exactly on valid UTF-8 and then
/// returns its decoding.
#[verifier::external_body]
fn bytes_to_string(bytes: Vec<u8>) -> (r: Option<String>)
    ensures
        r is Some <==> valid_utf8(bytes@),
        (r matches Some(v) ==> v@ == decode_utf8(bytes@)),
{
    String::from_utf8(bytes).ok()
}

/// The bytes are valid UTF-8.
pub fn frame_is_utf8(bytes: Vec<u8>) -> (r: bool)
    ensures
        r == valid_utf8(bytes@),
{
    bytes_to_string(bytes).is_some()
}

fn kstr(name: &str) -> (r: String)
    ensures
        r@ == name@,
{
    <String as vstd::string::StringExecFns>::from_str(name)
}

fn parse_string_chars(s: &[u8], i: usize) -> (r: Option<(String, usize)>)
    requires
        i <= s@.len(),
    ensures
        match r {
            Some(p) => {
                &&& spec_string_chars(s@, i as int) == Some((p.0@, p.1 as int))
                &&& i < p.1 <= s@.len()
            },
            None => spec_string_chars(s@, i as int) is None,
        },
{
    if !(i < s.len()) {
        return None;
    }
    if *vstd::slice::slice_index_get(s, i) != QUOTE {
        return None;
    }
    match parse_string_tail(s, i + 1, Vec::new()) {
        Some(p) => {
            let (content, end) = p;
            let ghost cv = content@;
            match bytes_to_string(content) {
                Some(st) => Some((st, end)),
                None => None,
            }
        },
        None => None,
    }
}

/// `null` at `i`.
fn parse_null(s: &[u8], i: usize) -> (r: bool)
    requires
        i <= s@.len(),
    ensures
        r == spec_null(s@, i as int),
{
    let n = s.len();
    n - i >= 4 && *vstd::slice::slice_index_get(s, i) == 110 && *vstd::slice::slice_index_get(
        s,
        i + 1,
    ) == 117 && *vstd::slice::slice_index_get(s, i + 2) == 108 && *vstd::slice::slice_index_get(
        s,
        i + 3,
    ) == 108
}

fn parse_opt_string(s: &[u8], i: usize) -> (r: Option<(Option<String>, usize)>)
    requires
        i <= s@.len(),
    ensures
        match r {
            Some(p) => {
                &&& spec_opt_string_chars(s@, i as int) == Some((p.0.deep_view(), p.1 as int))
                &&& i < p.1 <= s@.len()
            },
            None => spec_opt_string_chars(s@, i as int) is None,
        },
{
    let n = s.len();
    if parse_null(s, i) {
        proof {
            assert(i + 4 <= n);
        }
        return Some((None, i + 4));
    }
    match parse_string_chars(s, i) {
        Some(p) => Some((Some(p.0), p.1)),
        None => None,
    }
}

fn parse_u64_value(s: &[u8], i: usize) -> (r: Option<(u64, usize)>)
    requires
        i <= s@.len(),
    ensures
        match r {
            Some(p) => {
                &&& spec_u64_value(s@, i as int) == Some((p.0, p.1 as int))
                &&& i < p.1 <= s@.len()
            },
            None => spec_u64_value(s@, i as int) is None,
        },
{
    match parse_number(s, i) {
        Some(p) => {
            match p.0.as_u64() {
                Some(u) => Some((u, p.1)),
                None => None,
            }
        },
        None => None,
    }
}

fn parse_u16_value(s: &[u8], i: usize) -> (r: Option<(u16, usize)>)
    requires
        i <= s@.len(),
    ensures
        match r {
            Some(p) => {
                &&& spec_u16_value(s@, i as int) == Some((p.0, p.1 as int))
                &&& i < p.1 <= s@.len()
            },
            None => spec_u16_value(s@, i as int) is None,
        },
{
    match parse_u64_value(s, i) {
        Some(p) => {
            if p.0 <= 0xFFFF {
                Some((p.0 as u16, p.1))
            } else {
                None
            }
        },
        None => None,
    }
}

#[verifier::rlimit(100)]
fn parse_header_values(s: &[u8], i: usize) -> (r: Option<(Vec<String>, usize)>)
    requires
        i <= s@.len(),
    ensures
        match r {
            Some(p) => {
                &&& spec_header_values(s@, i as int) == Some((p.0.deep_view(), p.1 as int))
                &&& i < p.1 <= s@.len()
            },
            None => spec_header_values(s@, i as int) is None,
        },
{
    let n = s.len();
    if !(i < n) {
        return None;
    }
    if *vstd::slice::slice_index_get(s, i) != LBRACKET {
        return None;
    }
    let j = skip_ws(s, i + 1);
    let mut vals: Vec<String> = Vec::new();
    if j < n {
        if *vstd::slice::slice_index_get(s, j) == RBRACKET {
            proof {
                assert(vals.deep_view() =~= Seq::<Seq<char>>::empty());
            }
            return Some((vals, j + 1));
        }
    }
    let ghost j0 = j as int;
    let mut cur = j;
    proof {
        assert(vals.deep_view() =~= Seq::<Seq<char>>::empty());
        assert(spec_header_values(s@, i as int) == spec_header_values_items(
            s@,
            j as int,
            Seq::empty(),
        ));
    }
    loop
        invariant
            j0 == j as int,
            i < j <= cur <= n,
            n == s@.len(),
            spec_header_values(s@, i as int) == spec_header_values_items(
                s@,
                cur as int,
                vals.deep_view(),
            ),
        decreases n - cur,
    {
        match parse_string_chars(s, cur) {
            Some(vp) => {
                let (st, vend) = vp;
                let ghost old_vals = vals.deep_view();
                let ghost stv = st@;
                vals.push(st);
                proof {
                    assert(vals.deep_view() =~= old_vals.push(stv));
                }
                let c = skip_ws(s, vend);
                if c < n {
                    let cb = *vstd::slice::slice_index_get(s, c);
                    if cb == COMMA {
                        let nx = skip_ws(s, c + 1);
                        cur = nx;
                    } else if cb == RBRACKET {
                        return Some((vals, c + 1));
                    } else {
                        return None;
                    }
                } else {
                    return None;
                }
            },
            None => {
                return None;
            },
        }
    }
}

#[verifier::rlimit(100)]
fn parse_headers(s: &[u8], i: usize) -> (r: Option<(Headers, usize)>)
    requires
        i <= s@.len(),
    ensures
        match r {
            Some(p) => {
                &&& spec_headers(s@, i as int) == Some((p.0.deep_view(), p.1 as int))
                &&& i < p.1 <= s@.len()
            },
            None => spec_headers(s@, i as int) is None,
        },
{
    let n = s.len();
    if !(i < n) {
        return None;
    }
    if *vstd::slice::slice_index_get(s, i) != LBRACE {
        return None;
    }
    let j = skip_ws(s, i + 1);
    let mut pairs: Headers = Vec::new();
    if j < n {
        if *vstd::slice::slice_index_get(s, j) == RBRACE {
            proof {
                assert(pairs.deep_view() =~= Seq::<(Seq<char>, Seq<Seq<char>>)>::empty());
            }
            return Some((pairs, j + 1));
        }
    }
    let ghost j0 = j as int;
    let mut cur = j;
    proof {
        assert(pairs.deep_view() =~= Seq::<(Seq<char>, Seq<Seq<char>>)>::empty());
        assert(spec_headers(s@, i as int) == spec_headers_members(s@, j as int, Seq::empty()));
    }
    loop
        invariant
            j0 == j as int,
            i < j <= cur <= n,
            n == s@.len(),
            spec_headers(s@, i as int) == spec_headers_members(
                s@,
                cur as int,
                pairs.deep_view(),
            ),
        decreases n - cur,
    {
        match parse_string_chars(s, cur) {
            Some(kp) => {
                let (key, kend) = kp;
                let m = skip_ws(s, kend);
                if !(m < n) {
                    return None;
                }
                if *vstd::slice::slice_index_get(s, m) != COLON {
                    return None;
                }
                match parse_header_values(s, skip_ws(s, m + 1)) {
                    Some(vp) => {
                        let (vals, vend) = vp;
                        let ghost old_pairs = pairs.deep_view();
                        let ghost kv = key@;
                        let ghost vv = vals.deep_view();
                        pairs.push((key, vals));
                        proof {
                            assert(pairs.deep_view() =~= old_pairs.push((kv, vv)));
                        }
                        let c = skip_ws(s, vend);
                        if c < n {
                            let cb = *vstd::slice::slice_index_get(s, c);
                            if cb == COMMA {
                                let nx = skip_ws(s, c + 1);
                                cur = nx;
                            } else if cb == RBRACE {
                                return Some((pairs, c + 1));
                            } else {
                                return None;
                            }
                        } else {
                            return None;
                        }
                    },
                    None => {
                        return None;
                    },
                }
            },
            None => {
                return None;
            },
        }
    }
}

struct RequestPartial {
    remote_ip: Option<String>,
    remote_port: Option<String>,
    client_ip: Option<Option<String>>,
    protocol: Option<String>,
    method: Option<String>,
    host: Option<String>,
    uri: Option<String>,
    headers: Option<Headers>,
}

impl View for RequestPartial {
    type V = RequestPartialView;

    closed spec fn view(&self) -> RequestPartialView {
        RequestPartialView {
            remote_ip: self.remote_ip.deep_view(),
            remote_port: self.remote_port.deep_view(),
            client_ip: self.client_ip.deep_view(),
            protocol: self.protocol.deep_view(),
            method: self.method.deep_view(),
            host: self.host.deep_view(),
            uri: self.uri.deep_view(),
            headers: self.headers.deep_view(),
        }
    }
}

#[verifier::rlimit(100)]
fn parse_request_field(s: &[u8], v: usize, key: String, acc: RequestPartial) -> (r: Option<
    (RequestPartial, usize),
>)
    requires
        v <= s@.len(),
    ensures
        match r {
            Some(p) => {
                &&& spec_request_field(s@, v as int, key@, acc@) == Some((p.0@, p.1 as int))
                &&& v < p.1 <= s@.len()
            },
            None => spec_request_field(s@, v as int, key@, acc@) is None,
        },
{
    let mut acc = acc;
    if key == kstr("remote_ip") {
        if acc.remote_ip.is_some() {
            return None;
        }
        match parse_string_chars(s, v) {
            Some(p) => {
                acc.remote_ip = Some(p.0);
                Some((acc, p.1))
            },
            None => None,
        }
    } else if key == kstr("remote_port") {
        if acc.remote_port.is_some() {
            return None;
        }
        match parse_string_chars(s, v) {
            Some(p) => {
                acc.remote_port = Some(p.0);
                Some((acc, p.1))
            },
            None => None,
        }
    } else if key == kstr("client_ip") {
        if acc.client_ip.is_some() {
            return None;
        }
        match parse_opt_string(s, v) {
            Some(p) => {
                acc.client_ip = Some(p.0);
                Some((acc, p.1))
            },
            None => None,
        }
    } else if key == kstr("proto") {
        if acc.protocol.is_some() {
            return None;
        }
        match parse_string_chars(s, v) {
            Some(p) => {
                acc.protocol = Some(p.0);
                Some((acc, p.1))
            },
            None => None,
        }
    } else if key == kstr("method") {
        if acc.method.is_some() {
            return None;
        }
        match parse_string_chars(s, v) {
            Some(p) => {
                acc.method = Some(p.0);
                Some((acc, p.1))
            },
            None => None,
        }
    } else if key == kstr("host") {
        if acc.host.is_some() {
            return None;
        }
        match parse_string_chars(s, v) {
            Some(p) => {
                acc.host = Some(p.0);
                Some((acc, p.1))
            },
            None => None,
        }
    } else if key == kstr("uri") {
        if acc.uri.is_some() {
            return None;
        }
        match parse_string_chars(s, v) {
            Some(p) => {
                acc.uri = Some(p.0);
                Some((acc, p.1))
            },
            None => None,
        }
    } else if key == kstr("headers") {
        if acc.headers.is_some() {
            return None;
        }
        match parse_headers(s, v) {
            Some(p) => {
                acc.headers = Some(p.0);
                Some((acc, p.1))
            },
            None => None,
        }
    } else {
        match skip_value(s, v, SKIP_DEPTH_LIMIT) {
            Some(j) => Some((acc, j)),
            None => None,
        }
    }
}

#[verifier::rlimit(100)]
fn parse_request_members(s: &[u8], i: usize) -> (r: Option<(RequestPartial, usize)>)
    requires
        i <= s@.len(),
    ensures
        match r {
            Some(p) => {
                &&& spec_request_members(s@, i as int, empty_request_partial()) == Some(
                    (p.0@, p.1 as int),
                )
                &&& i < p.1 <= s@.len()
            },
            None => spec_request_members(s@, i as int, empty_request_partial()) is None,
        },
{
    let ghost i0 = i as int;
    let n = s.len();
    let mut cur = i;
    let mut acc = RequestPartial {
        remote_ip: None,
        remote_port: None,
        client_ip: None,
        protocol: None,
        method: None,
        host: None,
        uri: None,
        headers: None,
    };
    proof {
        assert(acc@ == empty_request_partial());
    }
    loop
        invariant
            i0 == i as int,
            i <= cur <= n,
            n == s@.len(),
            spec_request_members(s@, i0, empty_request_partial()) == spec_request_members(
                s@,
                cur as int,
                acc@,
            ),
        decreases n - cur,
    {
        match parse_string_chars(s, cur) {
            Some(kp) => {
                let (key, kend) = kp;
                let m = skip_ws(s, kend);
                if !(m < n) {
                    return None;
                }
                if *vstd::slice::slice_index_get(s, m) != COLON {
                    return None;
                }
                let v = skip_ws(s, m + 1);
                match parse_request_field(s, v, key, acc) {
                    Some(fp) => {
                        let (acc2, j) = fp;
                        let c = skip_ws(s, j);
                        if c < n {
                            let cb = *vstd::slice::slice_index_get(s, c);
                            if cb == COMMA {
                                let nx = skip_ws(s, c + 1);
                                acc = acc2;
                                cur = nx;
                            } else if cb == RBRACE {
                                return Some((acc2, c + 1));
                            } else {
                                return None;
                            }
                        } else {
                            return None;
                        }
                    },
                    None => {
                        return None;
                    },
                }
            },
            None => {
                return None;
            },
        }
    }
}

fn build_request(acc: RequestPartial) -> (r: Option<RequestInfo>)
    ensures
        match r {
            Some(req) => spec_build_request(acc@) == Some(req@),
            None => spec_build_request(acc@) is None,
        },
{
    let RequestPartial { remote_ip, remote_port, client_ip, protocol, method, host, uri, headers } =
        acc;
    match (remote_ip, remote_port, protocol, method, host, uri, headers) {
        (
            Some(remote_ip),
            Some(remote_port),
            Some(protocol),
            Some(method),
            Some(host),
            Some(uri),
            Some(headers),
        ) => Some(
            RequestInfo {
                remote_ip,
                remote_port,
                client_ip: match client_ip {
                    Some(c) => c,
                    None => None,
                },
                protocol,
                method,
                host,
                uri,
                headers,
            },
        ),
        _ => None,
    }
}

fn parse_request(s: &[u8], i: usize) -> (r: Option<(RequestInfo, usize)>)
    requires
        i <= s@.len(),
    ensures
        match r {
            Some(p) => {
                &&& spec_request(s@, i as int) == Some((p.0@, p.1 as int))
                &&& i < p.1 <= s@.len()
            },
            None => spec_request(s@, i as int) is None,
        },
{
    let n = s.len();
    if !(i < n) {
        return None;
    }
    if *vstd::slice::slice_index_get(s, i) != LBRACE {
        return None;
    }
    let j = skip_ws(s, i + 1);
    let mp: Option<(RequestPartial, usize)> = if j < n && *vstd::slice::slice_index_get(s, j)
        == RBRACE {
        let empty = RequestPartial {
            remote_ip: None,
            remote_port: None,
            client_ip: None,
            protocol: None,
            method: None,
            host: None,
            uri: None,
            headers: None,
        };
        proof {
            assert(empty@ == empty_request_partial());
        }
        Some((empty, j + 1))
    } else {
        parse_request_members(s, j)
    };
    match mp {
        Some(p) => {
            let (acc, k) = p;
            match build_request(acc) {
                Some(req) => Some((req, k)),
                None => None,
            }
        },
        None => None,
    }
}

struct RecordPartial {
    level: Option<String>,
    timestamp: Option<JsonNumber>,
    logger: Option<String>,
    message: Option<String>,
    request: Option<RequestInfo>,
    bytes_read: Option<u64>,
    user_id: Option<Option<String>>,
    duration: Option<JsonNumber>,
    size: Option<u64>,
    status: Option<u16>,
    response_headers: Option<Headers>,
}

impl View for RecordPartial {
    type V = RecordPartialView;

    closed spec fn view(&self) -> RecordPartialView {
        RecordPartialView {
            level: self.level.deep_view(),
            timestamp: self.timestamp.deep_view(),
            logger: self.logger.deep_view(),
            message: self.message.deep_view(),
            request: self.request.deep_view(),
            bytes_read: if self.bytes_read is Some {
                Some(self.bytes_read->Some_0)
            } else {
                None
            },
            user_id: self.user_id.deep_view(),
            duration: self.duration.deep_view(),
            size: if self.size is Some {
                Some(self.size->Some_0)
            } else {
                None
            },
            status: if self.status is Some {
                Some(self.status->Some_0)
            } else {
                None
            },
            response_headers: self.response_headers.deep_view(),
        }
    }
}

/// Parsed number tokens held by the partial record are well-formed.
spec fn record_partial_wf(p: RecordPartial) -> bool {
    &&& (p.timestamp matches Some(n) ==> number_wf(n@))
    &&& (p.duration matches Some(n) ==> number_wf(n@))
}

#[verifier::rlimit(100)]
fn parse_record_field(s: &[u8], v: usize, key: String, acc: RecordPartial) -> (r: Option<
    (RecordPartial, usize),
>)
    requires
        v <= s@.len(),
        record_partial_wf(acc),
    ensures
        match r {
            Some(p) => {
                &&& spec_record_field(s@, v as int, key@, acc@) == Some((p.0@, p.1 as int))
                &&& v < p.1 <= s@.len()
                &&& record_partial_wf(p.0)
            },
            None => spec_record_field(s@, v as int, key@, acc@) is None,
        },
{
    let mut acc = acc;
    if key == kstr("level") {
        if acc.level.is_some() {
            return None;
        }
        match parse_string_chars(s, v) {
            Some(p) => {
                acc.level = Some(p.0);
                Some((acc, p.1))
            },
            None => None,
        }
    } else if key == kstr("ts") {
        if acc.timestamp.is_some() {
            return None;
        }
        match parse_number(s, v) {
            Some(p) => {
                acc.timestamp = Some(p.0);
                Some((acc, p.1))
            },
            None => None,
        }
    } else if key == kstr("logger") {
        if acc.logger.is_some() {
            return None;
        }
        match parse_string_chars(s, v) {
            Some(p) => {
                acc.logger = Some(p.0);
                Some((acc, p.1))
            },
            None => None,
        }
    } else if key == kstr("msg") {
        if acc.message.is_some() {
            return None;
        }
        match parse_string_chars(s, v) {
            Some(p) => {
                acc.message = Some(p.0);
                Some((acc, p.1))
            },
            None => None,
        }
    } else if key == kstr("request") {
        if acc.request.is_some() {
            return None;
        }
        match parse_request(s, v) {
            Some(p) => {
                acc.request = Some(p.0);
                Some((acc, p.1))
            },
            None => None,
        }
    } else if key == kstr("bytes_read") {
        if acc.bytes_read.is_some() {
            return None;
        }
        match parse_u64_value(s, v) {
            Some(p) => {
                acc.bytes_read = Some(p.0);
                Some((acc, p.1))
            },
            None => None,
        }
    } else if key == kstr("user_id") {
        if acc.user_id.is_some() {
            return None;
        }
        match parse_opt_string(s, v) {
            Some(p) => {
                acc.user_id = Some(p.0);
                Some((acc, p.1))
            },
            None => None,
        }
    } else if key == kstr("duration") {
        if acc.duration.is_some() {
            return None;
        }
        match parse_number(s, v) {
            Some(p) => {
                acc.duration = Some(p.0);
                Some((acc, p.1))
            },
            None => None,
        }
    } else if key == kstr("size") {
        if acc.size.is_some() {
            return None;
        }
        match parse_u64_value(s, v) {
            Some(p) => {
                acc.size = Some(p.0);
                Some((acc, p.1))
            },
            None => None,
        }
    } else if key == kstr("status") {
        if acc.status.is_some() {
            return None;
        }
        match parse_u16_value(s, v) {
            Some(p) => {
                acc.status = Some(p.0);
                Some((acc, p.1))
            },
            None => None,
        }
    } else if key == kstr("resp_headers") {
        if acc.response_headers.is_some() {
            return None;
        }
        match parse_headers(s, v) {
            Some(p) => {
                acc.response_headers = Some(p.0);
                Some((acc, p.1))
            },
            None => None,
        }
    } else {
        match skip_value(s, v, SKIP_DEPTH_LIMIT) {
            Some(j) => Some((acc, j)),
            None => None,
        }
    }
}

#[verifier::rlimit(100)]
fn parse_record_members(s: &[u8], i: usize) -> (r: Option<(RecordPartial, usize)>)
    requires
        i <= s@.len(),
    ensures
        match r {
            Some(p) => {
                &&& spec_record_members(s@, i as int, empty_record_partial()) == Some(
                    (p.0@, p.1 as int),
                )
                &&& i < p.1 <= s@.len()
                &&& record_partial_wf(p.0)
            },
            None => spec_record_members(s@, i as int, empty_record_partial()) is None,
        },
{
    let ghost i0 = i as int;
    let n = s.len();
    let mut cur = i;
    let mut acc = RecordPartial {
        level: None,
        timestamp: None,
        logger: None,
        message: None,
        request: None,
        bytes_read: None,
        user_id: None,
        duration: None,
        size: None,
        status: None,
        response_headers: None,
    };
    proof {
        assert(acc@ == empty_record_partial());
    }
    loop
        invariant
            i0 == i as int,
            i <= cur <= n,
            n == s@.len(),
            record_partial_wf(acc),
            spec_record_members(s@, i0, empty_record_partial()) == spec_record_members(
                s@,
                cur as int,
                acc@,
            ),
        decreases n - cur,
    {
        match parse_string_chars(s, cur) {
            Some(kp) => {
                let (key, kend) = kp;
                let m = skip_ws(s, kend);
                if !(m < n) {
                    return None;
                }
                if *vstd::slice::slice_index_get(s, m) != COLON {
                    return None;
                }
                let v = skip_ws(s, m + 1);
                match parse_record_field(s, v, key, acc) {
                    Some(fp) => {
                        let (acc2, j) = fp;
                        let c = skip_ws(s, j);
                        if c < n {
                            let cb = *vstd::slice::slice_index_get(s, c);
                            if cb == COMMA {
                                let nx = skip_ws(s, c + 1);
                                acc = acc2;
                                cur = nx;
                            } else if cb == RBRACE {
                                return Some((acc2, c + 1));
                            } else {
                                return None;
                            }
                        } else {
                            return None;
                        }
                    },
                    None => {
                        return None;
                    },
                }
            },
            None => {
                return None;
            },
        }
    }
}

fn build_record(acc: RecordPartial) -> (r: Option<AccessLogEntry>)
    requires
        record_partial_wf(acc),
    ensures
        match r {
            Some(entry) => {
                &&& spec_build_record(acc@) == Some(entry@)
                &&& number_wf(entry.meta.timestamp@)
                &&& number_wf(entry.duration@)
            },
            None => spec_build_record(acc@) is None,
        },
{
    let RecordPartial {
        level,
        timestamp,
        logger,
        message,
        request,
        bytes_read,
        user_id,
        duration,
        size,
        status,
        response_headers,
    } = acc;
    match (
        level,
        timestamp,
        logger,
        message,
        request,
        bytes_read,
        duration,
        size,
        status,
        response_headers,
    ) {
        (
            Some(level),
            Some(timestamp),
            Some(logger),
            Some(message),
            Some(request),
            Some(bytes_read),
            Some(duration),
            Some(size),
            Some(status),
            Some(response_headers),
        ) => Some(
            AccessLogEntry {
                meta: Meta { level, timestamp, logger, message },
                request,
                bytes_read,
                user_id: match user_id {
                    Some(u) => u,
                    None => None,
                },
                duration,
                size,
                status,
                response_headers,
            },
        ),
        _ => None,
    }
}

/// Parse one frame's bytes as an access-log record.
pub fn parse_record(s: &[u8]) -> (r: Option<AccessLogEntry>)
    ensures
        match r {
            Some(entry) => {
                &&& spec_record(s@) == Some(entry@)
                &&& number_wf(entry.meta.timestamp@)
                &&& number_wf(entry.duration@)
            },
            None => spec_record(s@) is None,
        },
{
    let n = s.len();
    let i = skip_ws(s, 0);
    if !(i < n) {
        return None;
    }
    if *vstd::slice::slice_index_get(s, i) != LBRACE {
        return None;
    }
    let j = skip_ws(s, i + 1);
    let mp: Option<(RecordPartial, usize)> = if j < n && *vstd::slice::slice_index_get(s, j)
        == RBRACE {
        let empty = RecordPartial {
            level: None,
            timestamp: None,
            logger: None,
            message: None,
            request: None,
            bytes_read: None,
            user_id: None,
            duration: None,
            size: None,
            status: None,
            response_headers: None,
        };
        proof {
            assert(empty@ == empty_record_partial());
        }
        Some((empty, j + 1))
    } else {
        parse_record_members(s, j)
    };
    match mp {
        Some(p) => {
            let (acc, k) = p;
            let t = skip_ws(s, k);
            if t != n {
                return None;
            }
            build_record(acc)
        },
        None => None,
    }
}

} // verus!
