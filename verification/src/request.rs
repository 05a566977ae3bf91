//! Requests, as they come in and as they are recorded.

use std::io::Read;
use vstd::prelude::*;
use flate2::read::GzDecoder;
use crate::string_map::StringMap;
use crate::target::RequestTarget;
use crate::text::{eq_ignore_ascii_case, text_eq};
#[allow(unused_imports)]
use crate::target::{
    law_pairs_name_what_they_name, law_the_last_pair_counts, option_view, pairs_map, TargetView,
};
#[allow(unused_imports)]
use crate::text::{
    differ_in_case_only, law_case_is_compared_place_by_place, same_ignoring_ascii_case,
};

verus! {

/// A header field with its value.
#[derive(Debug)]
pub struct Header {
    pub field: String,
    pub value: String,
}

impl View for Header {
    type V = (Seq<char>, Seq<char>);

    open spec fn view(&self) -> (Seq<char>, Seq<char>) {
        (self.field@, self.value@)
    }
}

impl Header {
    pub fn new(field: &str, value: &str) -> (r: Self)
        ensures
            r@ == (field@, value@),
    {
        Header { field: field.to_string(), value: value.to_string() }
    }
}

/// The fields and values of several headers.
pub open spec fn headers_view(headers: Seq<Header>) -> Seq<(Seq<char>, Seq<char>)> {
    headers.map_values(|h: Header| h@)
}

/// The address of a client.
#[derive(Debug, Clone, Copy, PartialEq, Eq)]
pub enum ClientIp {
    V4([u8; 4]),
    V6([u8; 16]),
}

/// What was read of the body of a request: the bytes that came, and a description
/// of the failure that kept the rest from coming, if there was one.
#[derive(Debug)]
pub struct RawBody {
    pub bytes: Vec<u8>,
    pub failure: Option<String>,
}

/// A request as it comes in.
#[derive(Debug)]
pub struct IncomingRequest {
    pub method: String,
    pub url: String,
    pub headers: Vec<Header>,
    pub remote_ip: Option<ClientIp>,
    pub body: RawBody,
}

/// What a recorded request holds.
pub ghost struct StoredView {
    pub time: Seq<char>,
    pub time_epoch_ms: int,
    pub method: Seq<char>,
    pub path: Seq<char>,
    pub params: Option<Seq<char>>,
    pub header_count: nat,
    pub ip_addr: ClientIp,
    pub headers: Map<Seq<char>, Seq<char>>,
    pub body: Seq<char>,
}

/// A request as it is recorded.
pub struct StoredRequest {
    /// When the request came in, in UTC, in the form of RFC 2822.
    pub time: String,
    /// The same instant in milliseconds since 1970.
    pub time_epoch_ms: i64,
    pub method: String,
    pub path: String,
    pub params: Option<String>,
    pub header_count: usize,
    pub ip_addr: ClientIp,
    pub headers: StringMap<String>,
    pub body: String,
}

impl View for StoredRequest {
    type V = StoredView;

    open spec fn view(&self) -> StoredView {
        StoredView {
            time: self.time@,
            time_epoch_ms: self.time_epoch_ms as int,
            method: self.method@,
            path: self.path@,
            params: option_view(self.params),
            header_count: self.header_count as nat,
            ip_addr: self.ip_addr,
            headers: self.headers@,
            body: self.body@,
        }
    }
}

fn option_clone(s: &Option<String>) -> (r: Option<String>)
    ensures
        option_view(r) == option_view(*s),
{
    match s {
        Some(s) => Some(s.clone()),
        None => None,
    }
}

impl Clone for StoredRequest {
    fn clone(&self) -> (r: Self)
        ensures
            r@ == self@,
    {
        StoredRequest {
            time: self.time.clone(),
            time_epoch_ms: self.time_epoch_ms,
            method: self.method.clone(),
            path: self.path.clone(),
            params: option_clone(&self.params),
            header_count: self.header_count,
            ip_addr: self.ip_addr,
            headers: self.headers.duplicate(),
            body: self.body.clone(),
        }
    }
}

/// The headers by their fields; of two headers with the same field, spelled the
/// same way, the later one counts.
pub fn headers_to_hashmap(raw_headers: &[Header]) -> (r: StringMap<String>)
    ensures
        r@ == pairs_map(headers_view(raw_headers@)),
{
    let ghost all = headers_view(raw_headers@);
    let mut headers: StringMap<String> = StringMap::new();
    let mut i: usize = 0;
    while i < raw_headers.len()
        invariant
            i <= raw_headers@.len(),
            all == headers_view(raw_headers@),
            headers@ == pairs_map(all.take(i as int)),
        decreases raw_headers@.len() - i,
    {
        proof {
            assert(all.take(i + 1).drop_last() =~= all.take(i as int));
        }
        headers.insert(raw_headers[i].field.clone(), raw_headers[i].value.clone());
        i += 1;
    }
    assert(all.take(all.len() as int) =~= all);
    headers
}

/// The value of the first header with the given field, in any case.
pub open spec fn first_value(headers: Seq<(Seq<char>, Seq<char>)>, field: Seq<char>) -> Option<
    Seq<char>,
>
    decreases headers.len(),
{
    if headers.len() == 0 {
        None
    } else if same_ignoring_ascii_case(headers[0].0, field) {
        Some(headers[0].1)
    } else {
        first_value(headers.skip(1), field)
    }
}

/// Whether a request says that its body is gzip-encoded.
pub open spec fn says_gzip(headers: Seq<(Seq<char>, Seq<char>)>) -> bool {
    first_value(headers, "Content-Encoding"@) == Some("gzip"@)
}

/// Whether a request says that its body is gzip-encoded.
pub fn is_gzip(headers: &Vec<Header>) -> (r: bool)
    ensures
        r == says_gzip(headers_view(headers@)),
{
    let ghost all = headers_view(headers@);
    let mut i: usize = 0;
    assert(all.skip(0) =~= all);
    while i < headers.len()
        invariant
            i <= headers@.len(),
            all == headers_view(headers@),
            first_value(all, "Content-Encoding"@) == first_value(
                all.skip(i as int),
                "Content-Encoding"@,
            ),
        decreases headers@.len() - i,
    {
        proof {
            assert(all.skip(i as int)[0] == headers@[i as int]@);
            assert(all.skip(i as int).skip(1) =~= all.skip(i + 1));
        }
        if eq_ignore_ascii_case(headers[i].field.as_str(), "Content-Encoding") {
            return text_eq(headers[i].value.as_str(), "gzip");
        }
        i += 1;
    }
    false
}

/// The texts in a result.
pub open spec fn result_view(r: Result<String, String>) -> Result<Seq<char>, Seq<char>> {
    match r {
        Ok(s) => Ok(s@),
        Err(e) => Err(e@),
    }
}

/// Why a gzip-encoded body cannot be unpacked.
#[derive(Debug)]
pub struct UnpackError {
    /// Whether the bytes end before what is packed does.
    pub cut_short: bool,
    pub text: String,
}

/// The texts in the outcome of unpacking a body, and whether it was cut short.
pub open spec fn unpack_view(r: Result<String, UnpackError>) -> Result<
    Seq<char>,
    (bool, Seq<char>),
> {
    match r {
        Ok(s) => Ok(s@),
        Err(e) => Err((e.cut_short, e.text@)),
    }
}

/// The text that `GzDecoder` reads from some bytes; otherwise whether its error is
/// `UnexpectedEof`, and the description of the error.
pub uninterp spec fn gunzipped(raw: Seq<u8>) -> Result<Seq<char>, (bool, Seq<char>)>;

/// `read_to_string` of `flate2::read::GzDecoder` over some bytes. The text, or
/// the kind and the `Debug` form of the error, depends on the bytes alone.
#[verifier::external_body]
fn gunzip(raw: &[u8]) -> (r: Result<String, UnpackError>)
    ensures
        unpack_view(r) == gunzipped(raw@),
{
    let mut text = String::new();
    match GzDecoder::new(raw).read_to_string(&mut text) {
        Ok(_) => Ok(text),
        Err(e) => Err(
            UnpackError {
                cut_short: e.kind() == std::io::ErrorKind::UnexpectedEof,
                text: format!("{:?}", e),
            },
        ),
    }
}

/// The description of the error of reading bytes that are not UTF-8 as text.
pub uninterp spec fn not_utf8(raw: Seq<u8>) -> Seq<char>;

/// `read_to_string` of `std::io::Read` over some bytes: the text that they are in
/// UTF-8, or, where they are not valid UTF-8, the `Debug` form of the error, which
/// depends on the bytes alone.
#[verifier::external_body]
pub(crate) fn read_text(raw: &[u8]) -> (r: Result<String, String>)
    ensures
        result_view(r) == (if vstd::utf8::valid_utf8(raw@) {
            Ok(vstd::utf8::decode_utf8(raw@))
        } else {
            Err(not_utf8(raw@))
        }),
{
    let mut text = String::new();
    let mut rest = raw;
    match rest.read_to_string(&mut text) {
        Ok(_) => Ok(text),
        Err(e) => Err(format!("{:?}", e)),
    }
}

/// What comes out of unpacking a body that came as far as a failure, if there was
/// one: what is packed may be complete, or broken, before the failure; where it
/// is cut short, the failure is what cut it.
pub open spec fn unpacked(
    outcome: Result<Seq<char>, (bool, Seq<char>)>,
    failure: Option<Seq<char>>,
) -> Result<Seq<char>, Seq<char>> {
    match outcome {
        Ok(text) => Ok(text),
        Err((cut_short, e)) => if cut_short && failure is Some {
            Err(failure->Some_0)
        } else {
            Err(e)
        },
    }
}

/// What comes out of unpacking a body that came as far as a failure, given what
/// came out of unpacking the bytes that came.
pub fn unpack_outcome(outcome: Result<String, UnpackError>, failure: &Option<String>) -> (r: Result<
    String,
    String,
>)
    ensures
        result_view(r) == unpacked(unpack_view(outcome), option_view(*failure)),
{
    match outcome {
        Ok(text) => Ok(text),
        Err(e) => match failure {
            Some(failure) => if e.cut_short {
                Err(failure.clone())
            } else {
                Err(e.text)
            },
            None => Err(e.text),
        },
    }
}

/// What comes out of reading a body as text.
pub open spec fn decoded(gzip: bool, bytes: Seq<u8>, failure: Option<Seq<char>>) -> Result<
    Seq<char>,
    Seq<char>,
> {
    if gzip {
        unpacked(gunzipped(bytes), failure)
    } else {
        match failure {
            Some(e) => Err(e),
            None => if vstd::utf8::valid_utf8(bytes) {
                Ok(vstd::utf8::decode_utf8(bytes))
            } else {
                Err(not_utf8(bytes))
            },
        }
    }
}

/// The recorded body: the text that was read, or a note that it could not be.
pub open spec fn body_text(gzip: bool, outcome: Result<Seq<char>, Seq<char>>) -> Seq<char> {
    match outcome {
        Ok(text) => text,
        Err(e) => if gzip {
            "Could not parse gzipped request body: "@ + e
        } else {
            "Could not parse request body - is this a binary format? "@ + e
        },
    }
}

/// The recorded body, given what came out of reading it as text.
pub fn body_from(gzip: bool, outcome: Result<String, String>) -> (r: String)
    ensures
        r@ == body_text(gzip, result_view(outcome)),
{
    match outcome {
        Ok(text) => text,
        Err(e) => {
            let note = if gzip {
                "Could not parse gzipped request body: "
            } else {
                "Could not parse request body - is this a binary format? "
            };
            note.to_string().concat(e.as_str())
        },
    }
}

/// The body of a request as text, unpacked where the request says that it is
/// gzip-encoded.
pub fn get_request_body(request: &IncomingRequest) -> (r: String)
    ensures
        r@ == request_body(*request),
{
    let gzip = is_gzip(&request.headers);
    let bytes: &[u8] = request.body.bytes.as_slice();
    let outcome = if gzip {
        unpack_outcome(gunzip(bytes), &request.body.failure)
    } else {
        match &request.body.failure {
            Some(e) => Err(e.clone()),
            None => read_text(bytes),
        }
    };
    body_from(gzip, outcome)
}

/// The body of a request as it is recorded.
pub open spec fn request_body(request: IncomingRequest) -> Seq<char> {
    let gzip = says_gzip(headers_view(request.headers@));
    body_text(gzip, decoded(gzip, request.body.bytes@, option_view(request.body.failure)))
}

/// The first millisecond of the year 0 and the last one of the year 9999.
pub const EARLIEST_MS: i64 = -62_167_219_200_000;

pub const LATEST_MS: i64 = 253_402_300_799_999;

/// An instant, in milliseconds since 1970, in the form of RFC 2822.
pub uninterp spec fn rfc2822_text(epoch_ms: int) -> Seq<char>;

/// `DateTime::to_rfc2822` on the instant in UTC that is the given number of
/// milliseconds after the start of 1970. The years 0 to 9999 have such a form,
/// which depends on the instant alone.
#[verifier::external_body]
fn rfc2822(epoch_ms: i64) -> (r: String)
    requires
        EARLIEST_MS <= epoch_ms <= LATEST_MS,
    ensures
        r@ == rfc2822_text(epoch_ms as int),
{
    chrono::DateTime::from_timestamp_millis(epoch_ms).unwrap().to_rfc2822()
}

/// `Utc::now`, in milliseconds since 1970. The clock decides what comes back, so
/// nothing is claimed of it. On a system clock before 1970 the call panics.
#[verifier::external_body]
pub(crate) fn now_ms() -> (r: i64) {
    chrono::Utc::now().timestamp_millis()
}

/// The record of a request with the given target that came in at the given instant.
pub open spec fn stored_view(
    request: IncomingRequest,
    target: TargetView,
    epoch_ms: int,
) -> StoredView {
    StoredView {
        time: rfc2822_text(epoch_ms),
        time_epoch_ms: epoch_ms,
        method: request.method@,
        path: target.path,
        params: target.query,
        header_count: request.headers@.len(),
        ip_addr: match request.remote_ip {
            Some(ip) => ip,
            None => ClientIp::V4([127, 0, 0, 1]),
        },
        headers: pairs_map(headers_view(request.headers@)),
        body: request_body(request),
    }
}

/// The record of a request with the given target that came in at the given instant.
pub fn store(request: &IncomingRequest, target: RequestTarget, epoch_ms: i64) -> (r: StoredRequest)
    requires
        EARLIEST_MS <= epoch_ms <= LATEST_MS,
    ensures
        r@ == stored_view(*request, target@, epoch_ms as int),
        r.time_epoch_ms == epoch_ms,
        r.method@ == request.method@,
        r.path == target.path,
        r.params == target.query,
        r.header_count == request.headers@.len(),
        request.remote_ip matches Some(ip) ==> r.ip_addr == ip,
        !says_gzip(headers_view(request.headers@)) && request.body.failure is None
            && vstd::utf8::valid_utf8(request.body.bytes@) ==> vstd::utf8::encode_utf8(r.body@)
            == request.body.bytes@,
{
    proof {
        if vstd::utf8::valid_utf8(request.body.bytes@) {
            vstd::utf8::decode_utf8_encode_utf8(request.body.bytes@);
        }
    }
    StoredRequest {
        time: rfc2822(epoch_ms),
        time_epoch_ms: epoch_ms,
        method: request.method.clone(),
        path: target.path,
        params: target.query,
        header_count: request.headers.len(),
        ip_addr: match request.remote_ip {
            Some(ip) => ip,
            // A request that did not come over the network counts as local.
            None => ClientIp::V4([127, 0, 0, 1]),
        },
        headers: headers_to_hashmap(request.headers.as_slice()),
        body: get_request_body(request),
    }
}

/// Whether no header has the field `Content-Encoding`, in any case.
pub open spec fn no_content_encoding(headers: Seq<(Seq<char>, Seq<char>)>) -> bool {
    forall|j: int|
        0 <= j < headers.len() ==> !differ_in_case_only(
            (#[trigger] headers[j]).0,
            "Content-Encoding"@,
        )
}

/// Headers with other fields, put in front, do not change whether a request says
/// that its body is gzip-encoded.
pub proof fn law_headers_in_front_change_nothing(
    front: Seq<(Seq<char>, Seq<char>)>,
    headers: Seq<(Seq<char>, Seq<char>)>,
)
    requires
        no_content_encoding(front),
    ensures
        says_gzip(front + headers) == says_gzip(headers),
    decreases front.len(),
{
    if front.len() == 0 {
        assert(front + headers =~= headers);
    } else {
        let rest = front.skip(1);
        assert forall|j: int| 0 <= j < rest.len() implies !differ_in_case_only(
            (#[trigger] rest[j]).0,
            "Content-Encoding"@,
        ) by {
            assert(rest[j] == front[j + 1]);
        }
        law_headers_in_front_change_nothing(rest, headers);
        law_case_is_compared_place_by_place(front[0].0, "Content-Encoding"@);
        assert((front + headers)[0] == front[0]);
        assert((front + headers).skip(1) =~= rest + headers);
    }
}

/// Of the headers with the field `Content-Encoding`, in any case, the first one
/// alone says whether the body is gzip-encoded, wherever it stands, and it does by
/// the value `gzip` and no other.
pub proof fn law_the_first_content_encoding_decides(
    headers: Seq<(Seq<char>, Seq<char>)>,
    i: int,
)
    requires
        0 <= i < headers.len(),
        differ_in_case_only(headers[i].0, "Content-Encoding"@),
        no_content_encoding(headers.take(i)),
    ensures
        says_gzip(headers) <==> headers[i].1 == "gzip"@,
{
    let rest = headers.skip(i);
    assert(headers =~= headers.take(i) + rest);
    law_headers_in_front_change_nothing(headers.take(i), rest);
    law_case_is_compared_place_by_place(rest[0].0, "Content-Encoding"@);
    assert(rest[0] == headers[i]);
}

/// Without a header with the field `Content-Encoding` a body is not gzip-encoded.
pub proof fn law_gzip_has_to_be_said(headers: Seq<(Seq<char>, Seq<char>)>)
    requires
        no_content_encoding(headers),
    ensures
        !says_gzip(headers),
{
    let none = Seq::<(Seq<char>, Seq<char>)>::empty();
    law_headers_in_front_change_nothing(headers, none);
    assert(headers + none =~= headers);
}

/// A body of text that came whole is recorded as it came, byte for byte.
pub proof fn law_text_is_recorded_as_it_came(
    request: IncomingRequest,
    target: TargetView,
    epoch_ms: int,
)
    requires
        !says_gzip(headers_view(request.headers@)),
        request.body.failure is None,
        vstd::utf8::valid_utf8(request.body.bytes@),
    ensures
        vstd::utf8::encode_utf8(stored_view(request, target, epoch_ms).body)
            == request.body.bytes@,
        vstd::utf8::encode_utf8(request_body(request)) == request.body.bytes@,
{
    vstd::utf8::decode_utf8_encode_utf8(request.body.bytes@);
}

/// A gzip-encoded body that can be unpacked is recorded as the text that was packed,
/// also where a failure came after it.
pub proof fn law_packed_text_is_recorded_unpacked(
    request: IncomingRequest,
    target: TargetView,
    epoch_ms: int,
    text: Seq<char>,
)
    requires
        says_gzip(headers_view(request.headers@)),
        gunzipped(request.body.bytes@) == Ok::<Seq<char>, (bool, Seq<char>)>(text),
    ensures
        stored_view(request, target, epoch_ms).body == text,
        request_body(request) == text,
{
}

/// A body that cannot be read as text is recorded as a note with the reason: what
/// kept the bytes from coming, or else what is wrong with them.
pub proof fn law_unreadable_bodies_are_noted(
    request: IncomingRequest,
    target: TargetView,
    epoch_ms: int,
)
    ensures
        ({
            let gzip = says_gzip(headers_view(request.headers@));
            let bytes = request.body.bytes@;
            let body = stored_view(request, target, epoch_ms).body;
            let plain_note = "Could not parse request body - is this a binary format? "@;
            let gzip_note = "Could not parse gzipped request body: "@;
            &&& request_body(request) == body
            &&& !gzip ==> (request.body.failure matches Some(failure) ==> body == plain_note
                + failure@)
            &&& !gzip && request.body.failure is None && !vstd::utf8::valid_utf8(bytes) ==> body
                == plain_note + not_utf8(bytes)
            &&& gzip ==> (gunzipped(bytes) matches Err((cut_short, reason)) ==> {
                &&& request.body.failure is None || !cut_short ==> body == gzip_note + reason
                &&& cut_short ==> (request.body.failure matches Some(failure) ==> body == gzip_note
                    + failure@)
            })
        }),
{
}

/// A record holds the method, the path and the query as they came, the instant in
/// both forms, the number of headers, and the address that the request came from,
/// or that of the local host.
pub proof fn law_a_record_holds_what_came(
    request: IncomingRequest,
    target: TargetView,
    epoch_ms: int,
)
    ensures
        ({
            let record = stored_view(request, target, epoch_ms);
            &&& record.method == request.method@
            &&& record.path == target.path
            &&& record.params == target.query
            &&& record.time_epoch_ms == epoch_ms
            &&& record.time == rfc2822_text(epoch_ms)
            &&& record.header_count == request.headers@.len()
            &&& request.remote_ip matches Some(ip) ==> record.ip_addr == ip
            &&& request.remote_ip is None ==> record.ip_addr == ClientIp::V4([127, 0, 0, 1])
        }),
{
}

/// A record holds each header field, as it was spelled, with the value that came
/// last.
pub proof fn law_a_record_holds_the_headers(
    request: IncomingRequest,
    target: TargetView,
    epoch_ms: int,
    i: int,
)
    requires
        0 <= i < request.headers@.len(),
        forall|j: int|
            i < j < request.headers@.len() ==> (#[trigger] request.headers@[j]).field@
                != request.headers@[i].field@,
    ensures
        ({
            let headers = stored_view(request, target, epoch_ms).headers;
            &&& headers.dom().contains(request.headers@[i].field@)
            &&& headers[request.headers@[i].field@] == request.headers@[i].value@
        }),
{
    let pairs = headers_view(request.headers@);
    assert forall|j: int| 0 <= j < pairs.len() implies (#[trigger] pairs[j]).0
        == request.headers@[j].field@ by {}
    law_the_last_pair_counts(pairs, i);
}

/// A record holds no header field that did not come.
pub proof fn law_a_record_holds_no_other_headers(
    request: IncomingRequest,
    target: TargetView,
    epoch_ms: int,
    field: Seq<char>,
)
    requires
        forall|j: int|
            0 <= j < request.headers@.len() ==> (#[trigger] request.headers@[j]).field@ != field,
    ensures
        !stored_view(request, target, epoch_ms).headers.dom().contains(field),
{
    let pairs = headers_view(request.headers@);
    assert forall|j: int| 0 <= j < pairs.len() implies (#[trigger] pairs[j]).0
        == request.headers@[j].field@ by {}
    law_pairs_name_what_they_name(pairs, field);
}

} // verus!
