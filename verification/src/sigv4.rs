//! SigV4 signatures.

use std::time::{Duration, UNIX_EPOCH};

use aws_credential_types::Credentials;
use aws_sigv4::http_request::{
    sign, PayloadChecksumKind, SignableBody, SignableRequest, SigningError, SigningSettings,
};
use aws_sigv4::sign::v4::SigningParams;
use aws_smithy_runtime_api::client::identity::Identity;
use vstd::prelude::*;

use crate::headers::MAX_NAMES_BEFORE_INSERT;
use crate::request_url::{query_fits, says_host};

verus! {

/// `aws_sigv4::http_request::SigningError`, the error of a request that cannot
/// be signed.
#[verifier::external_type_specification]
#[verifier::external_body]
pub struct ExSigningError(aws_sigv4::http_request::SigningError);

/// Whether the checksum of the body becomes a header of its own.
#[derive(Clone, Copy, Debug, PartialEq, Eq, Structural)]
pub enum PayloadChecksum {
    XAmzSha256,
    NoHeader,
}

/// How many headers a signature adds at most, `host` included.
pub const SIGNING_HEADERS: usize = 4;

/// How many headers a request can have to be signed.
pub const MAX_SIGNED_HEADERS: usize = 24576;

/// The SHA-256 of nothing, in hexadecimal digits.
pub const EMPTY_SHA256: &'static str =
    "e3b0c44298fc1c149afbf4c8996fb92427ae41e4649b934ca495991b7852b855";

/// The first second of the year -9999, counted from the Unix epoch.
pub const FIRST_SIGNING_SECOND: i64 = -377705116800;

/// The last second of the year 9999, counted from the Unix epoch.
pub const LAST_SIGNING_SECOND: i64 = 253402300799;

/// The headers that a SigV4 signature of a request consists of, as names and
/// values, or `None` if it cannot be signed. The request is made by the owner of
/// the key `access_key_id` with the given secret and session token, for the
/// service in the region, `secs` seconds and `nanos` nanoseconds from the Unix
/// epoch.
pub uninterp spec fn sigv4_headers(
    access_key_id: Seq<char>,
    secret_access_key: Seq<char>,
    session_token: Option<Seq<char>>,
    region: Seq<char>,
    service: Seq<char>,
    secs: int,
    nanos: u32,
    checksum: PayloadChecksum,
    method: Seq<char>,
    url: Seq<char>,
    headers: Seq<(Seq<char>, Seq<char>)>,
    body: Seq<u8>,
) -> Option<Seq<(Seq<char>, Seq<char>)>>;

/// Whether `url` is one that a request can be made for.
pub uninterp spec fn is_request_url(url: Seq<char>) -> bool;

/// The views of a list of names and values.
pub open spec fn text_views(pairs: Seq<(&str, &str)>) -> Seq<(Seq<char>, Seq<char>)> {
    pairs.map_values(|pair: (&str, &str)| (pair.0@, pair.1@))
}

/// The views of a list of names and values.
pub open spec fn string_views(pairs: Seq<(String, String)>) -> Seq<(Seq<char>, Seq<char>)> {
    pairs.map_values(|pair: (String, String)| (pair.0@, pair.1@))
}

/// The names of a list of headers.
pub open spec fn first_names(pairs: Seq<(Seq<char>, Seq<char>)>) -> Seq<Seq<char>> {
    pairs.map_values(|pair: (Seq<char>, Seq<char>)| pair.0)
}

/// The view of a session token.
pub open spec fn token_view(token: Option<String>) -> Option<Seq<char>> {
    match token {
        Some(t) => Some(t@),
        None => None,
    }
}

/// The names of the headers that a signature consists of, in their order.
pub open spec fn signed_names(checksum: PayloadChecksum, has_token: bool) -> Seq<Seq<char>> {
    seq!["x-amz-date"@, "authorization"@] + (match checksum {
        PayloadChecksum::XAmzSha256 => seq!["x-amz-content-sha256"@],
        PayloadChecksum::NoHeader => Seq::empty(),
    }) + (if has_token {
        seq!["x-amz-security-token"@]
    } else {
        Seq::empty()
    })
}

/// `aws_sigv4::http_request::SignableRequest::new`: whether `url` is one that a
/// request can be made for. That depends on the URL alone.
#[verifier::external_body]
pub(crate) fn check_url(url: &str) -> (r: Result<(), SigningError>)
    ensures
        r is Ok <==> is_request_url(url@),
{
    SignableRequest::new("", url, std::iter::empty(), SignableBody::Bytes(&[])).map(|_| ())
}

fn own(pair: (&str, &str)) -> (r: (String, String))
    ensures
        r.0@ == pair.0@,
        r.1@ == pair.1@,
{
    (pair.0.to_owned(), pair.1.to_owned())
}

/// `aws_sigv4::http_request::sign`, with default settings but for the checksum
/// header: the headers to add to a request that is made `ahead` seconds and
/// `nanos` nanoseconds after, less `behind` seconds, the Unix epoch. Their
/// values depend on the arguments alone: of the credentials, the key, the secret
/// and the session token have a part in them, the expiration and the name of the
/// provider have none. Their names are fixed by the checksum setting and by
/// whether there is a session token, and the checksum of an empty body is that
/// of nothing.
///
/// It panics on a path alone unless there is a `host` header; on a host alone,
/// whose empty path it cannot parse again; where the query, decoded and encoded
/// anew, makes the path and query longer than a URL can be; beyond the years
/// that it can write; and on more headers than its own header map takes.
#[verifier::external_body]
pub(crate) fn sigv4_sign(
    access_key_id: &str,
    secret: &str,
    token: Option<String>,
    region: &str,
    service: &str,
    ahead: u64,
    nanos: u32,
    behind: u64,
    checksum: PayloadChecksum,
    method: &str,
    url: &str,
    headers: Vec<(&str, &str)>,
    body: &[u8],
) -> (r: Result<Vec<(String, String)>, SigningError>)
    requires
        nanos < 1_000_000_000,
        behind == 0 || ahead == 0,
        FIRST_SIGNING_SECOND <= ahead - behind <= LAST_SIGNING_SECOND,
        is_request_url(url@),
        says_host(url@, first_names(text_views(headers@)).contains("host"@)),
        query_fits(url@),
        headers@.len() <= MAX_SIGNED_HEADERS,
        first_names(text_views(headers@)).to_set().len() + SIGNING_HEADERS
            <= MAX_NAMES_BEFORE_INSERT,
    ensures
        ({
            let named = sigv4_headers(
                access_key_id@,
                secret@,
                token_view(token),
                region@,
                service@,
                ahead - behind,
                nanos,
                checksum,
                method@,
                url@,
                text_views(headers@),
                body@,
            );
            match r {
                Ok(signed) => {
                    &&& named == Some(string_views(signed@))
                    &&& first_names(string_views(signed@)) == signed_names(checksum, token is Some)
                    &&& checksum is XAmzSha256 && body@.len() == 0 ==> string_views(signed@)[2].1
                        == EMPTY_SHA256@
                },
                Err(_) => named is None,
            }
        }),
{
    let key = Credentials::new(access_key_id, secret, token, None, "s3");
    let identity = Identity::new(key, None);
    let mut settings = SigningSettings::default();
    settings.payload_checksum_kind = match checksum {
        PayloadChecksum::XAmzSha256 => PayloadChecksumKind::XAmzSha256,
        PayloadChecksum::NoHeader => PayloadChecksumKind::NoHeader,
    };
    let time = UNIX_EPOCH + Duration::new(ahead, nanos) - Duration::from_secs(behind);
    let params = SigningParams::builder().identity(&identity).region(region).name(service);
    let params = params.time(time).settings(settings).build().unwrap().into();
    let body = SignableBody::Bytes(body);
    let request = SignableRequest::new(method, url, headers.into_iter(), body)?;
    Ok(sign(request, &params)?.output().headers().map(own).collect())
}

} // verus!
