//! The request builder: a flushed batch becomes one wire request, with its
//! body serialised, optionally gzip-compressed, and its headers set.

use crate::batch::{BatchModel, FlushedBatch};
use crate::encoding::{EncodedFragment, Encoding, FragmentModel};
use crate::json::{array_json, frame};
use crate::text::{append_bytes, append_joined, byte_rows, decimal, decimal_string, flattened, str_eq};
use std::io::Write;
use vstd::prelude::*;

verus! {

/// How a request body is compressed.
#[derive(Clone, Copy, Debug, PartialEq, Eq)]
pub enum Compression {
    /// The body is sent as it is.
    Uncompressed,
    /// The body is sent as a gzip stream of the given level, 0 to 9; level
    /// 6 where none is given.
    Gzip(Option<u32>),
}

/// Why no request could be built from a batch.
#[derive(Clone, Copy, Debug, PartialEq, Eq)]
pub enum BuildError {
    /// The gzip level is above 9.
    InvalidLevel,
    /// The encoder reported an error.
    Compression,
    /// The endpoint is no URI.
    InvalidUri,
    /// A header value holds a character that no header may carry.
    InvalidHeader,
}

/// One header of a request.
#[derive(Clone, Debug, PartialEq, Eq)]
pub struct Header {
    pub name: String,
    pub value: String,
}

/// Mathematical model of a [`Header`].
pub struct HeaderModel {
    pub name: Seq<char>,
    pub value: Seq<char>,
}

impl View for Header {
    type V = HeaderModel;

    open spec fn view(&self) -> HeaderModel {
        HeaderModel { name: self.name@, value: self.value@ }
    }
}

/// A complete request: where it goes, its headers in order, its body.
#[derive(Clone, Debug, PartialEq, Eq)]
pub struct WireRequest {
    pub uri: String,
    pub headers: Vec<Header>,
    pub body: Vec<u8>,
}

/// Mathematical model of a [`WireRequest`].
pub struct RequestModel {
    pub uri: Seq<char>,
    pub headers: Seq<HeaderModel>,
    pub body: Seq<u8>,
}

impl View for WireRequest {
    type V = RequestModel;

    open spec fn view(&self) -> RequestModel {
        RequestModel {
            uri: self.uri@,
            headers: Seq::new(self.headers.len() as nat, |i: int| self.headers[i]@),
            body: self.body@,
        }
    }
}

/// The value of the first header called `name`, letter for letter.
pub open spec fn header_value(headers: Seq<HeaderModel>, name: Seq<char>) -> Option<Seq<char>>
    decreases headers.len(),
{
    if headers.len() == 0 {
        None
    } else {
        match header_value(headers.drop_last(), name) {
            Some(v) => Some(v),
            None => if headers.last().name == name {
                Some(headers.last().value)
            } else {
                None
            },
        }
    }
}

impl WireRequest {
    /// The value of the first header called `name`, letter for letter.
    pub fn header(&self, name: &str) -> (r: Option<&String>)
        ensures
            match r {
                Some(v) => header_value(self@.headers, name@) == Some(v@),
                None => header_value(self@.headers, name@) is None,
            },
    {
        let mut i: usize = 0;
        while i < self.headers.len()
            invariant
                i <= self.headers.len(),
                header_value(self@.headers.subrange(0, i as int), name@) is None,
            decreases self.headers.len() - i,
        {
            proof {
                let next = self@.headers.subrange(0, i + 1);
                assert(next.drop_last() =~= self@.headers.subrange(0, i as int));
                assert(next.last() == self.headers[i as int]@);
            }
            if str_eq(self.headers[i].name.as_str(), name) {
                proof {
                    lemma_header_found(self@.headers, name@, i + 1);
                }
                return Some(&self.headers[i].value);
            }
            i += 1;
        }
        assert(self@.headers.subrange(0, i as int) =~= self@.headers);
        None
    }
}

/// A header found among the first `k` is the one found among all.
pub proof fn lemma_header_found(headers: Seq<HeaderModel>, name: Seq<char>, k: int)
    requires
        0 <= k <= headers.len(),
        header_value(headers.subrange(0, k), name) is Some,
    ensures
        header_value(headers, name) == header_value(headers.subrange(0, k), name),
    decreases headers.len() - k,
{
    if k < headers.len() {
        let next = headers.subrange(0, k + 1);
        assert(next.drop_last() =~= headers.subrange(0, k));
        lemma_header_found(headers, name, k + 1);
    } else {
        assert(headers.subrange(0, k) =~= headers);
    }
}

/// The gzip stream that `flate2` writes for `body` at `level`, with the
/// header that its encoder writes when nothing is configured; `None`
/// where the encoder reports an error.
pub uninterp spec fn gzip_stream(body: Seq<u8>, level: nat) -> Option<Seq<u8>>;

/// What `flate2` reads out of a gzip stream: the bytes that were
/// compressed, or nothing where the data is no single complete gzip member.
pub uninterp spec fn gunzip_stream(data: Seq<u8>) -> Option<Seq<u8>>;

/// Whether the `http` crate parses the text as a URI.
pub uninterp spec fn uri_accepted(uri: Seq<char>) -> bool;

/// `flate2::write::GzEncoder` over a `Vec`: `new` with the level,
/// `write_all` of the body, `finish`. The result is the gzip stream of the
/// body at that level, or `None` where the encoder reports an error; it
/// depends on the body and the level alone. Reading a stream that was
/// written gives the body back. Levels above 9 are left out: the encoder
/// is documented for 0 to 9.
#[verifier::external_body]
fn gzip(body: &[u8], level: u32) -> (r: Option<Vec<u8>>)
    requires
        level <= 9,
    ensures
        match r {
            Some(v) => gzip_stream(body@, level as nat) == Some(v@) && gunzip_stream(v@) == Some(
                body@,
            ),
            None => gzip_stream(body@, level as nat) is None,
        },
{
    let mut encoder = flate2::write::GzEncoder::new(Vec::new(), flate2::Compression::new(level));
    match encoder.write_all(body) {
        Ok(()) => encoder.finish().ok(),
        Err(_) => None,
    }
}

/// `flate2::write::GzDecoder` over a `Vec`: `new`, `write_all` of the
/// data, `finish`. The result is what the stream holds, or `None` where
/// the decoder reports an error.
#[verifier::external_body]
fn gunzip(data: &[u8]) -> (r: Option<Vec<u8>>)
    ensures
        match r {
            Some(v) => gunzip_stream(data@) == Some(v@),
            None => gunzip_stream(data@) is None,
        },
{
    let mut decoder = flate2::write::GzDecoder::new(Vec::new());
    match decoder.write_all(data) {
        Ok(()) => decoder.finish().ok(),
        Err(_) => None,
    }
}

/// `str::parse::<http::Uri>`: whether the text parses as a URI.
#[verifier::external_body]
pub(crate) fn uri_parses(uri: &str) -> (ok: bool)
    ensures
        ok == uri_accepted(uri@),
{
    uri.parse::<http::Uri>().is_ok()
}

/// Whether a header value may hold the character: a tab, or anything from
/// the space on but the delete character.
pub open spec fn header_char_ok(c: char) -> bool {
    c == '\t' || (c as u32 >= 32 && c as u32 != 127)
}

/// Whether every character of the text may stand in a header value.
pub open spec fn header_value_ok(value: Seq<char>) -> bool {
    forall|i: int| 0 <= i < value.len() ==> header_char_ok(#[trigger] value[i])
}

/// `http::HeaderValue::from_str`: it accepts a text exactly when each of
/// its bytes is a tab or is at least 32 and not 127; the bytes of a
/// character beyond ASCII are all above 127.
#[verifier::external_body]
pub(crate) fn header_value_parses(value: &str) -> (ok: bool)
    ensures
        ok == header_value_ok(value@),
{
    http::HeaderValue::from_str(value).is_ok()
}

/// The payloads of a list of fragments, in order.
pub open spec fn payloads(fragments: Seq<FragmentModel>) -> Seq<Seq<u8>> {
    Seq::new(fragments.len(), |i: int| fragments[i].payload)
}

/// The body of a batch before compression: a JSON array of the payloads
/// for the structured encoding, the payloads one after the other for the
/// flat one.
pub open spec fn serialized(encoding: Encoding, fragments: Seq<FragmentModel>) -> Seq<u8> {
    match encoding {
        Encoding::Structured => array_json(payloads(fragments)),
        Encoding::Flat => flattened(payloads(fragments)),
    }
}

/// The content type of an encoding.
pub open spec fn content_type_of(encoding: Encoding) -> Seq<char> {
    match encoding {
        Encoding::Structured => "application/json"@,
        Encoding::Flat => "text/plain"@,
    }
}

/// The headers of a request, in order: content type, API key, the content
/// encoding where the body is compressed, and the length of the body as
/// it is sent.
pub open spec fn headers_for(
    content_type: Seq<char>,
    api_key: Seq<char>,
    gzipped: bool,
    body_len: nat,
) -> Seq<HeaderModel> {
    let first = seq![
        HeaderModel { name: "Content-Type"@, value: content_type },
        HeaderModel { name: "DD-API-KEY"@, value: api_key },
    ];
    let length = HeaderModel { name: "Content-Length"@, value: decimal(body_len) };
    if gzipped {
        first.push(HeaderModel { name: "Content-Encoding"@, value: "gzip"@ }).push(length)
    } else {
        first.push(length)
    }
}

/// The gzip level that a compression mode asks for.
pub open spec fn level_of(level: Option<u32>) -> nat {
    match level {
        Some(l) => l as nat,
        None => 6,
    }
}

/// What the checks on a request's parts found.
#[derive(Clone, Copy, Debug, PartialEq, Eq)]
pub struct RequestChecks {
    /// Whether the endpoint parses as a URI.
    pub uri_ok: bool,
    /// Whether the content type may stand in a header.
    pub content_type_ok: bool,
    /// Whether the API key may stand in a header.
    pub api_key_ok: bool,
}

/// Puts a request together from its parts and the outcome of the checks
/// and of the compression. `body` is the body as it will be sent, or
/// `None` where the encoder failed; `gzipped` says whether it is
/// compressed. A failed compression is reported first, then a bad URI,
/// then a bad header value.
pub fn assemble(
    uri: &str,
    api_key: &str,
    content_type: &str,
    checks: RequestChecks,
    gzipped: bool,
    body: Option<Vec<u8>>,
) -> (r: Result<WireRequest, BuildError>)
    ensures
        match r {
            Ok(req) => body matches Some(b) && checks.uri_ok && checks.content_type_ok
                && checks.api_key_ok && req@ == (RequestModel {
                uri: uri@,
                headers: headers_for(content_type@, api_key@, gzipped, b@.len()),
                body: b@,
            }),
            Err(BuildError::Compression) => body is None,
            Err(BuildError::InvalidUri) => body is Some && !checks.uri_ok,
            Err(BuildError::InvalidHeader) => body is Some && checks.uri_ok && !(
            checks.content_type_ok && checks.api_key_ok),
            Err(BuildError::InvalidLevel) => false,
        },
{
    match body {
        None => Err(BuildError::Compression),
        Some(b) => {
            if !checks.uri_ok {
                Err(BuildError::InvalidUri)
            } else if !checks.content_type_ok || !checks.api_key_ok {
                Err(BuildError::InvalidHeader)
            } else {
                let mut headers: Vec<Header> = Vec::new();
                headers.push(
                    Header { name: "Content-Type".to_owned(), value: content_type.to_owned() },
                );
                headers.push(Header { name: "DD-API-KEY".to_owned(), value: api_key.to_owned() });
                if gzipped {
                    headers.push(
                        Header { name: "Content-Encoding".to_owned(), value: "gzip".to_owned() },
                    );
                }
                headers.push(
                    Header {
                        name: "Content-Length".to_owned(),
                        value: decimal_string(b.len() as u64),
                    },
                );
                let req = WireRequest { uri: uri.to_owned(), headers, body: b };
                assert(req@.headers =~= headers_for(
                    content_type@,
                    api_key@,
                    gzipped,
                    req@.body.len(),
                ));
                Ok(req)
            }
        },
    }
}

/// The body as it is sent: as it is, or as the gzip stream of the level
/// that the compression asks for; `None` where the encoder fails.
pub open spec fn sent_body(compression: Compression, body: Seq<u8>) -> Option<Seq<u8>> {
    match compression {
        Compression::Uncompressed => Some(body),
        Compression::Gzip(level) => gzip_stream(body, level_of(level)),
    }
}

/// What a body holds once its compression is undone: the body itself
/// where it was sent as it is, else what the gzip stream holds, if it is
/// one.
pub open spec fn decoded(compression: Compression, body: Seq<u8>) -> Option<Seq<u8>> {
    match compression {
        Compression::Uncompressed => Some(body),
        Compression::Gzip(_) => gunzip_stream(body),
    }
}

/// The request for a serialised body, or the reason why there is none.
///
/// A gzip level above 9 is refused before anything else; then a failure
/// of the encoder is reported, then an endpoint that is no URI, then a
/// content type or API key that cannot stand in a header. Else the
/// request goes to the endpoint with the body as it is sent and the
/// headers that belong to it.
pub open spec fn request_for(
    uri: Seq<char>,
    api_key: Seq<char>,
    content_type: Seq<char>,
    compression: Compression,
    body: Seq<u8>,
) -> Result<RequestModel, BuildError> {
    if compression matches Compression::Gzip(level) && level_of(level) > 9 {
        Err(BuildError::InvalidLevel)
    } else {
        match sent_body(compression, body) {
            None => Err(BuildError::Compression),
            Some(sent) => if !uri_accepted(uri) {
                Err(BuildError::InvalidUri)
            } else if !(header_value_ok(content_type) && header_value_ok(api_key)) {
                Err(BuildError::InvalidHeader)
            } else {
                Ok(
                    RequestModel {
                        uri,
                        headers: headers_for(
                            content_type,
                            api_key,
                            compression is Gzip,
                            sent.len(),
                        ),
                        body: sent,
                    },
                )
            },
        }
    }
}

/// What a result of building holds.
pub open spec fn result_model(r: Result<WireRequest, BuildError>) -> Result<
    RequestModel,
    BuildError,
> {
    match r {
        Ok(req) => Ok(req@),
        Err(e) => Err(e),
    }
}

/// A level that is left out means level 6: both give the same request,
/// header for header and byte for byte, or the same error.
pub proof fn lemma_default_level(
    uri: Seq<char>,
    api_key: Seq<char>,
    content_type: Seq<char>,
    body: Seq<u8>,
)
    ensures
        request_for(uri, api_key, content_type, Compression::Gzip(None), body) == request_for(
            uri,
            api_key,
            content_type,
            Compression::Gzip(Some(6)),
            body,
        ),
{
}

/// Builds the request for a serialised body, compressing it as
/// `compression` says. The result is [`request_for`] of the arguments,
/// and the body of a request that is built reads back as `body`.
pub fn build_request(
    uri: &str,
    api_key: &str,
    content_type: &str,
    compression: Compression,
    body: Vec<u8>,
) -> (r: Result<WireRequest, BuildError>)
    ensures
        result_model(r) == request_for(uri@, api_key@, content_type@, compression, body@),
        r matches Ok(req) ==> decoded(compression, req@.body) == Some(body@),
{
    let checks = RequestChecks {
        uri_ok: uri_parses(uri),
        content_type_ok: header_value_parses(content_type),
        api_key_ok: header_value_parses(api_key),
    };
    match compression {
        Compression::Uncompressed => assemble(uri, api_key, content_type, checks, false, Some(body)),
        Compression::Gzip(level) => {
            let level: u32 = match level {
                Some(l) => l,
                None => 6,
            };
            if level > 9 {
                Err(BuildError::InvalidLevel)
            } else {
                let packed = gzip(body.as_slice(), level);
                assemble(uri, api_key, content_type, checks, true, packed)
            }
        },
    }
}

/// Undoes the compression of a body; an error where the data is no gzip
/// stream.
pub fn decompress(compression: Compression, body: &[u8]) -> (r: Result<Vec<u8>, BuildError>)
    ensures
        match r {
            Ok(v) => decoded(compression, body@) == Some(v@),
            Err(e) => e == BuildError::Compression && decoded(compression, body@) is None,
        },
{
    match compression {
        Compression::Uncompressed => {
            let mut out: Vec<u8> = Vec::new();
            append_bytes(&mut out, body);
            assert(out@ =~= body@);
            Ok(out)
        },
        Compression::Gzip(_) => match gunzip(body) {
            Some(v) => Ok(v),
            None => Err(BuildError::Compression),
        },
    }
}

/// The payloads of a list of fragments, copied out in order.
pub fn payload_rows(fragments: &Vec<EncodedFragment>) -> (rows: Vec<Vec<u8>>)
    ensures
        byte_rows(rows@) == payloads(crate::batch::fragment_models(fragments@)),
{
    let mut rows: Vec<Vec<u8>> = Vec::new();
    let mut i: usize = 0;
    while i < fragments.len()
        invariant
            i <= fragments.len(),
            rows.len() == i,
            forall|j: int| 0 <= j < i ==> rows[j]@ == fragments[j].payload@,
        decreases fragments.len() - i,
    {
        let mut row: Vec<u8> = Vec::new();
        append_bytes(&mut row, fragments[i].payload.as_slice());
        assert(row@ =~= fragments[i as int].payload@);
        rows.push(row);
        i += 1;
    }
    assert(byte_rows(rows@) =~= payloads(crate::batch::fragment_models(fragments@)));
    rows
}

/// Compression round trip. Whatever request a builder gives for a batch,
/// undoing the builder's compression on its body gives back the
/// serialised batch, byte for byte.
pub proof fn lemma_round_trip(builder: RequestBuilder, batch: BatchModel, request: RequestModel)
    requires
        builder.builds(batch, Ok(request)),
    ensures
        decoded(builder.compression, request.body) == Some(
            serialized(builder.encoding, batch.fragments),
        ),
{
}

/// The acknowledgement tokens of a list of fragments, in order.
pub open spec fn tokens_of(fragments: Seq<FragmentModel>) -> Seq<u64> {
    Seq::new(fragments.len(), |i: int| fragments[i].token)
}

/// Turns flushed batches into requests for one endpoint.
#[derive(Clone, Debug, PartialEq, Eq)]
pub struct RequestBuilder {
    pub uri: String,
    pub encoding: Encoding,
    pub compression: Compression,
}

impl RequestBuilder {
    /// The body of a batch before compression.
    pub fn serialize(&self, batch: &FlushedBatch) -> (body: Vec<u8>)
        ensures
            body@ == serialized(self.encoding, batch@.fragments),
    {
        let rows = payload_rows(&batch.fragments);
        match self.encoding {
            Encoding::Structured => frame(91u8, &rows, 93u8),
            Encoding::Flat => {
                let mut body: Vec<u8> = Vec::new();
                append_joined(&mut body, &rows, None);
                assert(body@ =~= serialized(self.encoding, batch@.fragments));
                body
            },
        }
    }

    /// The content type that goes with the encoding.
    pub fn content_type(&self) -> (t: &'static str)
        ensures
            t@ == content_type_of(self.encoding),
            header_value_ok(t@),
    {
        match self.encoding {
            Encoding::Structured => {
                proof {
                    reveal_strlit("application/json");
                }
                "application/json"
            },
            Encoding::Flat => {
                proof {
                    reveal_strlit("text/plain");
                }
                "text/plain"
            },
        }
    }

    /// The request of a batch, or the reason why there is none: the
    /// request for the serialised batch, with the batch's key in the API
    /// key header and the content type of the encoding.
    pub open spec fn request_of(&self, batch: BatchModel) -> Result<RequestModel, BuildError> {
        request_for(
            self.uri@,
            batch.key,
            content_type_of(self.encoding),
            self.compression,
            serialized(self.encoding, batch.fragments),
        )
    }

    /// Whether `r` is what building the request of `batch` gives: the
    /// request of the batch, with a body that reads back as the
    /// serialised batch.
    pub open spec fn builds(&self, batch: BatchModel, r: Result<RequestModel, BuildError>) -> bool {
        &&& r == self.request_of(batch)
        &&& r matches Ok(req) ==> decoded(self.compression, req.body) == Some(
            serialized(self.encoding, batch.fragments),
        )
    }

    /// Builds the request of a batch: the body is the batch serialised
    /// and compressed, the API key header carries the batch's partition
    /// key. The batch's key is not part of the body.
    pub fn build(&self, batch: &FlushedBatch) -> (r: Result<WireRequest, BuildError>)
        ensures
            self.builds(batch@, result_model(r)),
    {
        let body = self.serialize(batch);
        build_request(
            self.uri.as_str(),
            batch.key.as_str(),
            self.content_type(),
            self.compression,
            body,
        )
    }
}

} // verus!
