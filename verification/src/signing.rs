//! Signing requests.

use aws_sigv4::http_request::SigningError;
use reqwest::header::{HeaderMap, HeaderValue, InvalidHeaderName, InvalidHeaderValue};
use vstd::prelude::*;
use vstd::utf8::{decode_utf8, encode_utf8, valid_utf8};

use crate::headers::{
    ascii_lower, check_header_name, check_header_value, header_pairs, insert_header,
    is_header_name, is_header_text, lemma_with_header_names, list_headers, names_of, pair_views,
    values_of, with_header, MAX_NAMES_BEFORE_INSERT,
};
use crate::identity::{
    refresh_due, refreshes, slack_in_range, told_by_clock, Credentials, SystemTimeSource,
    Timestamp, NANOS_PER_SEC,
};
use crate::request_url::{has_fitting_query, has_host, query_fits, says_host};
use crate::s3::S3State;
use crate::signing_laws::{law_signed_request_carries_signature, lemma_carried_headers};
use crate::sigv4::{
    check_url, first_names, is_request_url, signed_names, sigv4_headers, sigv4_sign, string_views,
    text_views, token_view, PayloadChecksum, EMPTY_SHA256, FIRST_SIGNING_SECOND,
    LAST_SIGNING_SECOND, MAX_SIGNED_HEADERS, SIGNING_HEADERS,
};
use crate::text::utf8_text;

verus! {

/// Why a signed request could not be made.
#[derive(Debug)]
pub enum SignFault {
    /// The request cannot be signed.
    Signing(SigningError),
    /// The signature asks for a header with a name that is none.
    HeaderName(InvalidHeaderName),
    /// The signature asks for a header with a value that is none.
    HeaderValue(InvalidHeaderValue),
}

/// Why a request was not signed.
#[derive(Debug)]
pub enum SignError<E> {
    /// No credentials were to be had.
    Credentials(E),
    /// The request is not one that signing takes, or the clock stands at a year
    /// that signing cannot write.
    Unsupported,
    /// The request cannot be signed.
    Fault(SignFault),
}

/// How applying a list of headers ends.
pub enum Applied {
    /// All of them are applied.
    All,
    /// The next one has a name that is none.
    AtName,
    /// The next one has a value that is none.
    AtValue,
}

/// The headers `pairs` after the headers `signed` are set one by one, up to the
/// first that is not well-formed, and how that ends.
pub open spec fn apply_all(
    pairs: Seq<(Seq<char>, Seq<u8>)>,
    signed: Seq<(Seq<char>, Seq<char>)>,
) -> (Seq<(Seq<char>, Seq<u8>)>, Applied)
    decreases signed.len(),
{
    if signed.len() == 0 {
        (pairs, Applied::All)
    } else if !is_header_name(signed[0].0) {
        (pairs, Applied::AtName)
    } else if !is_header_text(signed[0].1) {
        (pairs, Applied::AtValue)
    } else {
        apply_all(
            with_header(pairs, ascii_lower(signed[0].0), encode_utf8(signed[0].1)),
            signed.drop_first(),
        )
    }
}

/// The result that stands for the end of applying a list of headers.
pub open spec fn reports(r: Result<(), SignFault>, applied: Applied) -> bool {
    match applied {
        Applied::All => r is Ok,
        Applied::AtName => r matches Err(SignFault::HeaderName(_)),
        Applied::AtValue => r matches Err(SignFault::HeaderValue(_)),
    }
}

/// Sets the headers that a signature consists of, one by one.
///
/// Where one of them is not well-formed, those before it are set and those from
/// it on are not.
pub fn apply_headers(headers: &mut HeaderMap<HeaderValue>, signed: &Vec<(String, String)>) -> (r:
    Result<(), SignFault>)
    requires
        names_of(header_pairs(*old(headers))).len() + signed@.len() <= MAX_NAMES_BEFORE_INSERT,
    ensures
        ({
            let (pairs, applied) = apply_all(
                header_pairs(*old(headers)),
                string_views(signed@),
            );
            header_pairs(*final(headers)) == pairs && reports(r, applied)
        }),
{
    let mut i: usize = 0;
    assert(string_views(signed@).skip(0) =~= string_views(signed@));
    while i < signed.len()
        invariant
            i <= signed@.len(),
            names_of(header_pairs(*headers)).len() + (signed@.len() - i)
                <= MAX_NAMES_BEFORE_INSERT,
            apply_all(header_pairs(*old(headers)), string_views(signed@)) == apply_all(
                header_pairs(*headers),
                string_views(signed@).skip(i as int),
            ),
        decreases signed@.len() - i,
    {
        let (name, value) = &signed[i];
        let ghost rest = string_views(signed@).skip(i as int);
        assert(rest[0] == (name@, value@));
        assert(rest.drop_first() =~= string_views(signed@).skip(i + 1));
        match check_header_name(name.as_str()) {
            Ok(()) => {},
            Err(e) => {
                return Err(SignFault::HeaderName(e));
            },
        }
        match check_header_value(value.as_str()) {
            Ok(()) => {},
            Err(e) => {
                return Err(SignFault::HeaderValue(e));
            },
        }
        proof {
            lemma_with_header_names(
                header_pairs(*headers),
                ascii_lower(name@),
                encode_utf8(value@),
            );
        }
        insert_header(headers, name.as_str(), value.as_str());
        i = i + 1;
    }
    Ok(())
}

/// Headers with their values as text.
pub open spec fn decoded(pairs: Seq<(Seq<char>, Seq<u8>)>) -> Seq<(Seq<char>, Seq<char>)> {
    pairs.map_values(|pair: (Seq<char>, Seq<u8>)| (pair.0, decode_utf8(pair.1)))
}

/// Whether a request to `url` with the headers `pairs`, dated `time`, is one
/// that signing takes: where the URL is one, all values are text, the request
/// says which host it is for, its query can be encoded anew, there is room for
/// the headers of a signature, and the date is one that a signature can have.
pub open spec fn can_sign(
    pairs: Seq<(Seq<char>, Seq<u8>)>,
    url: Seq<char>,
    time: Timestamp,
) -> bool {
    is_request_url(url) ==> {
        &&& forall|i: int| 0 <= i < pairs.len() ==> valid_utf8((#[trigger] pairs[i]).1)
        &&& says_host(url, names_of(pairs).contains("host"@))
        &&& query_fits(url)
        &&& pairs.len() <= MAX_SIGNED_HEADERS
        &&& names_of(pairs).len() + SIGNING_HEADERS <= MAX_NAMES_BEFORE_INSERT
        &&& in_signing_years(time)
    }
}

/// Whether a signature can be dated `time`.
pub open spec fn in_signing_years(time: Timestamp) -> bool {
    FIRST_SIGNING_SECOND <= time.nanos as int / NANOS_PER_SEC as int <= LAST_SIGNING_SECOND
}

/// The headers that the signature of a request without a body to S3 consists
/// of, if its URL is one and it can be signed.
pub open spec fn signature_of(
    region: Seq<char>,
    credentials: Credentials,
    verb: Seq<char>,
    url: Seq<char>,
    time: Timestamp,
    pairs: Seq<(Seq<char>, Seq<u8>)>,
) -> Option<Seq<(Seq<char>, Seq<char>)>> {
    if is_request_url(url) {
        sigv4_headers(
            credentials.access_key_id@,
            credentials.secret_access_key@,
            token_view(credentials.session_token),
            region,
            "s3"@,
            time.nanos as int / NANOS_PER_SEC as int,
            (time.nanos as int % NANOS_PER_SEC as int) as u32,
            PayloadChecksum::XAmzSha256,
            verb,
            url,
            decoded(pairs),
            Seq::empty(),
        )
    } else {
        None
    }
}

/// What is known of the headers that a signature consists of, where the
/// credentials have a session token or not: their names, and the checksum of the
/// body, which is empty.
pub open spec fn is_signature(signed: Seq<(Seq<char>, Seq<char>)>, has_token: bool) -> bool {
    &&& first_names(signed) == signed_names(PayloadChecksum::XAmzSha256, has_token)
    &&& signed[2].1 == EMPTY_SHA256@
}

/// How signing a request gets its headers from `before` to `after`: those of
/// the signature are set, if there is one.
pub open spec fn signs(
    signature: Option<Seq<(Seq<char>, Seq<char>)>>,
    before: Seq<(Seq<char>, Seq<u8>)>,
    after: Seq<(Seq<char>, Seq<u8>)>,
    r: Result<(), SignFault>,
) -> bool {
    match signature {
        Some(signed) => {
            let (pairs, applied) = apply_all(before, signed);
            after == pairs && reports(r, applied)
        },
        None => after == before && r matches Err(SignFault::Signing(_)),
    }
}

/// A point in time as seconds and nanoseconds after, less seconds before, the
/// Unix epoch.
fn split_time(time: Timestamp) -> (r: (u64, u32, u64))
    requires
        in_signing_years(time),
    ensures
        r.0 == 0 || r.2 == 0,
        r.0 - r.2 == time.nanos as int / NANOS_PER_SEC as int,
        r.1 == time.nanos as int % NANOS_PER_SEC as int,
{
    if time.nanos >= 0 {
        ((time.nanos / NANOS_PER_SEC) as u64, (time.nanos % NANOS_PER_SEC) as u32, 0)
    } else {
        let ago: i128 = 0 - time.nanos;
        let behind: i128 = (ago + (NANOS_PER_SEC - 1)) / NANOS_PER_SEC;
        (0, (behind * NANOS_PER_SEC - ago) as u32, behind as u64)
    }
}

/// How many names there are in a list of headers.
fn count_names(list: &Vec<(String, Vec<u8>)>) -> (r: usize)
    ensures
        r == names_of(pair_views(list@)).len(),
{
    let ghost pairs = pair_views(list@);
    let mut count: usize = 0;
    let mut i: usize = 0;
    assert(names_of(pairs.take(0)) =~= Set::empty());
    while i < list.len()
        invariant
            i <= list@.len(),
            count <= i,
            pairs == pair_views(list@),
            count == names_of(pairs.take(i as int)).len(),
        decreases list@.len() - i,
    {
        let mut known: bool = false;
        let mut j: usize = 0;
        while j < i
            invariant
                j <= i < list@.len(),
                pairs == pair_views(list@),
                known <==> exists|k: int| 0 <= k < j && (#[trigger] pairs[k]).0 == pairs[i as int].0,
            decreases i - j,
        {
            assert(pairs[j as int].0 == list@[j as int].0@);
            assert(pairs[i as int].0 == list@[i as int].0@);
            if list[j].0 == list[i].0 {
                known = true;
            }
            j = j + 1;
        }
        proof {
            lemma_next_name(pairs, i as int);
        }
        if !known {
            count = count + 1;
        }
        i = i + 1;
    }
    assert(pairs.take(pairs.len() as int) =~= pairs);
    count
}

/// One more header adds its name, unless an earlier one has it.
proof fn lemma_next_name(pairs: Seq<(Seq<char>, Seq<u8>)>, i: int)
    requires
        0 <= i < pairs.len(),
    ensures
        names_of(pairs.take(i + 1)).len() == names_of(pairs.take(i)).len() + if exists|k: int|
            0 <= k < i && (#[trigger] pairs[k]).0 == pairs[i].0 {
            0int
        } else {
            1
        },
{
    let names = pairs.take(i).map_values(|pair: (Seq<char>, Seq<u8>)| pair.0);
    let more = pairs.take(i + 1).map_values(|pair: (Seq<char>, Seq<u8>)| pair.0);
    assert(more =~= names.push(pairs[i].0));
    assert forall|n: Seq<char>|
        more.contains(n) <==> #[trigger] names.to_set().insert(pairs[i].0).contains(n) by {
        if names.contains(n) {
            let k = choose|k: int| 0 <= k < names.len() && names[k] == n;
            assert(more[k] == n);
        }
        assert(more[i] == pairs[i].0);
    }
    assert(more.to_set() =~= names.to_set().insert(pairs[i].0));
    names.lemma_cardinality_of_set();
    if exists|k: int| 0 <= k < i && (#[trigger] pairs[k]).0 == pairs[i].0 {
        let k = choose|k: int| 0 <= k < i && (#[trigger] pairs[k]).0 == pairs[i].0;
        assert(names[k] == pairs[i].0);
    } else if names.contains(pairs[i].0) {
        let k = choose|k: int| 0 <= k < names.len() && names[k] == pairs[i].0;
        assert(pairs[k].0 == pairs[i].0);
    }
}

/// Whether a request to `url` with these headers, dated `time`, is one that
/// signing takes.
pub fn signable(headers: &HeaderMap<HeaderValue>, url: &str, time: Timestamp) -> (r: bool)
    ensures
        r == can_sign(header_pairs(*headers), url@, time),
{
    if check_url(url).is_err() {
        return true;
    }
    let ghost pairs = header_pairs(*headers);
    let ghost names = pairs.map_values(|pair: (Seq<char>, Seq<u8>)| pair.0);
    let list: Vec<(String, Vec<u8>)> = list_headers(headers);
    if list.len() > MAX_SIGNED_HEADERS {
        return false;
    }
    let host: String = "host".to_owned();
    let mut has_host_header: bool = false;
    let mut i: usize = 0;
    while i < list.len()
        invariant
            i <= list@.len(),
            pairs == pair_views(list@),
            pairs == header_pairs(*headers),
            host@ == "host"@,
            is_request_url(url@),
            has_host_header <==> exists|k: int| 0 <= k < i && (#[trigger] pairs[k]).0 == "host"@,
            forall|k: int| 0 <= k < i ==> valid_utf8((#[trigger] pairs[k]).1),
        decreases list@.len() - i,
    {
        let (name, value) = &list[i];
        assert(pairs[i as int] == (name@, value@));
        if utf8_text(value.as_slice()).is_none() {
            return false;
        }
        if *name == host {
            has_host_header = true;
        }
        i = i + 1;
    }
    proof {
        if has_host_header {
            let k = choose|k: int| 0 <= k < pairs.len() && (#[trigger] pairs[k]).0 == "host"@;
            assert(names[k] == "host"@);
        } else if names.contains("host"@) {
            let k = choose|k: int| 0 <= k < names.len() && names[k] == "host"@;
            assert(pairs[k].0 == "host"@);
        }
    }
    has_host(url, has_host_header) && has_fitting_query(url) && count_names(&list)
        <= MAX_NAMES_BEFORE_INSERT - SIGNING_HEADERS && is_in_signing_years(time)
}

/// Whether a signature can be dated `time`.
fn is_in_signing_years(time: Timestamp) -> (r: bool)
    ensures
        r == in_signing_years(time),
{
    let first: i128 = FIRST_SIGNING_SECOND as i128 * NANOS_PER_SEC;
    let end: i128 = (LAST_SIGNING_SECOND as i128 + 1) * NANOS_PER_SEC;
    first <= time.nanos && time.nanos < end
}

/// How signing a request ends that is begun at `now` and dated `time`: the
/// identity is refreshed, and if it could be, the request is signed as that
/// identity.
pub open spec fn sign_outcome<E, P: FnOnce() -> Result<Credentials, E>>(
    before: S3State,
    after: S3State,
    provide: P,
    verb: Seq<char>,
    url: Seq<char>,
    now: Timestamp,
    time: Timestamp,
    pairs: Seq<(Seq<char>, Seq<u8>)>,
    signed: Seq<(Seq<char>, Seq<u8>)>,
    r: Result<(), SignError<E>>,
) -> bool {
    &&& after == (S3State { identity: after.identity, ..before })
    &&& exists|refreshed: Result<(), E>|
        {
            &&& #[trigger] refreshes(
                before.identity.identity,
                after.identity.identity,
                now,
                provide,
                refreshed,
            )
            &&& match refreshed {
                Err(e) => signed == pairs && r == Err::<(), SignError<E>>(
                    SignError::Credentials(e),
                ),
                Ok(()) => {
                    let credentials = after.identity.identity.credentials;
                    let signature = signature_of(
                        before.region@,
                        credentials,
                        verb,
                        url,
                        time,
                        pairs,
                    );
                    if !can_sign(pairs, url, time) {
                        signed == pairs && r == Err::<(), SignError<E>>(SignError::Unsupported)
                    } else {
                        &&& signature matches Some(s) ==> is_signature(
                            s,
                            credentials.session_token is Some,
                        )
                        &&& match r {
                            Ok(()) => signs(signature, pairs, signed, Ok(())),
                            Err(SignError::Fault(fault)) => signs(
                                signature,
                                pairs,
                                signed,
                                Err(fault),
                            ),
                            Err(_) => false,
                        }
                    }
                },
            }
        }
}

impl S3State {
    /// Signs a request without a body, as the present identity, at `time`: sets
    /// the headers that the signature consists of.
    pub fn sign_with_identity(
        &self,
        verb: &str,
        headers: &mut HeaderMap<HeaderValue>,
        url: &str,
        time: Timestamp,
    ) -> (r: Result<(), SignFault>)
        requires
            can_sign(header_pairs(*old(headers)), url@, time),
        ensures
            signs(
                signature_of(
                    self.region@,
                    self.identity.identity.credentials,
                    verb@,
                    url@,
                    time,
                    header_pairs(*old(headers)),
                ),
                header_pairs(*old(headers)),
                header_pairs(*final(headers)),
                r,
            ),
            signature_of(
                self.region@,
                self.identity.identity.credentials,
                verb@,
                url@,
                time,
                header_pairs(*old(headers)),
            ) matches Some(signed) ==> is_signature(
                signed,
                self.identity.identity.credentials.session_token is Some,
            ),
            r is Ok ==> {
                &&& is_request_url(url@)
                &&& sigv4_headers(
                    self.identity.identity.credentials.access_key_id@,
                    self.identity.identity.credentials.secret_access_key@,
                    match self.identity.identity.credentials.session_token {
                        Some(token) => Some(token@),
                        None => None,
                    },
                    self.region@,
                    "s3"@,
                    time.nanos as int / 1_000_000_000,
                    (time.nanos as int % 1_000_000_000) as u32,
                    PayloadChecksum::XAmzSha256,
                    verb@,
                    url@,
                    decoded(header_pairs(*old(headers))),
                    Seq::empty(),
                ) matches Some(signed) && {
                    &&& signed.len() == if self.identity.identity.credentials.session_token is Some {
                        4int
                    } else {
                        3
                    }
                    &&& values_of(header_pairs(*final(headers)), "x-amz-date"@) == seq![
                        encode_utf8(signed[0].1),
                    ]
                    &&& values_of(header_pairs(*final(headers)), "authorization"@) == seq![
                        encode_utf8(signed[1].1),
                    ]
                    &&& values_of(header_pairs(*final(headers)), "x-amz-content-sha256"@) == seq![
                        encode_utf8(signed[2].1),
                    ]
                    &&& self.identity.identity.credentials.session_token is Some ==> values_of(
                        header_pairs(*final(headers)),
                        "x-amz-security-token"@,
                    ) == seq![encode_utf8(signed[3].1)]
                    &&& forall|other: Seq<char>|
                        other != "x-amz-date"@ && other != "authorization"@ && other
                            != "x-amz-content-sha256"@ && other != "x-amz-security-token"@
                            ==> #[trigger] values_of(header_pairs(*final(headers)), other) == values_of(
                            header_pairs(*old(headers)),
                            other,
                        )
                }
            },
            !is_request_url(url@) ==> r matches Err(SignFault::Signing(_)),
            r matches Err(SignFault::Signing(_)) ==> header_pairs(*final(headers)) == header_pairs(
                *old(headers),
            ),
    {
        match check_url(url) {
            Ok(()) => {},
            Err(e) => {
                return Err(SignFault::Signing(e));
            },
        }
        let ghost pairs = header_pairs(*headers);
        let list: Vec<(String, Vec<u8>)> = list_headers(&*headers);
        let mut texts: Vec<(&str, &str)> = Vec::new();
        let mut i: usize = 0;
        while i < list.len()
            invariant
                i <= list@.len(),
                pair_views(list@) == pairs,
                forall|k: int| 0 <= k < pairs.len() ==> valid_utf8((#[trigger] pairs[k]).1),
                text_views(texts@) == decoded(pairs.take(i as int)),
            decreases list@.len() - i,
        {
            let (name, value) = &list[i];
            assert(pairs[i as int] == (name@, value@));
            let text: &str = utf8_text(value.as_slice()).unwrap();
            let ghost before = texts@;
            texts.push((name.as_str(), text));
            assert(decoded(pairs.take(i + 1)) =~= decoded(pairs.take(i as int)).push(
                (name@, text@),
            ));
            assert(text_views(texts@) =~= text_views(before).push((name@, text@)));
            i = i + 1;
        }
        assert(pairs.take(pairs.len() as int) =~= pairs);
        assert(first_names(decoded(pairs)) =~= pairs.map_values(
            |pair: (Seq<char>, Seq<u8>)| pair.0,
        ));
        let (ahead, nanos, behind) = split_time(time);
        let credentials = &self.identity.identity.credentials;
        let no_body: [u8; 0] = [];
        assert(no_body@ =~= Seq::empty());
        match sigv4_sign(
            credentials.access_key_id.as_str(),
            credentials.secret_access_key.as_str(),
            credentials.session_token.clone(),
            self.region.as_str(),
            "s3",
            ahead,
            nanos,
            behind,
            PayloadChecksum::XAmzSha256,
            verb,
            url,
            texts,
            no_body.as_slice(),
        ) {
            Ok(signed) => {
                assert(first_names(string_views(signed@)).len() == signed@.len());
                let r: Result<(), SignFault> = apply_headers(headers, &signed);
                proof {
                    let has_token = credentials.session_token is Some;
                    if r is Ok {
                        law_signed_request_carries_signature(
                            string_views(signed@),
                            has_token,
                            pairs,
                            header_pairs(*headers),
                        );
                        lemma_carried_headers(
                            string_views(signed@),
                            has_token,
                            pairs,
                            header_pairs(*headers),
                        );
                    }
                }
                r
            },
            Err(e) => Err(SignFault::Signing(e)),
        }
    }

    /// Signs a request without a body: sets the headers that the signature
    /// consists of.
    ///
    /// An identity that is about to expire is first replaced by that of the
    /// credentials that `provide` hands out; only then `provide` is called. The request is dated by the clock,
    /// which is read again after that.
    pub fn sign<E, P: FnOnce() -> Result<Credentials, E>>(
        &mut self,
        verb: &str,
        headers: &mut HeaderMap<HeaderValue>,
        _resource: &str,
        full_resource_url: &str,
        provide: P,
    ) -> (r: Result<(), SignError<E>>)
        requires
            slack_in_range(old(self).identity.identity.expiration),
            (exists|t: Timestamp|
                told_by_clock(t) && #[trigger] refresh_due(
                    old(self).identity.identity.expiration,
                    t,
                )) ==> provide.requires(()),
        ensures
            exists|
                now: Timestamp,
                time: Timestamp,
            |
                told_by_clock(now) && told_by_clock(time) && #[trigger] sign_outcome(
                    *old(self),
                    *final(self),
                    provide,
                    verb@,
                    full_resource_url@,
                    now,
                    time,
                    header_pairs(*old(headers)),
                    header_pairs(*final(headers)),
                    r,
                ),
            r is Ok ==> exists|time: Timestamp| #[trigger]
                told_by_clock(time) && {
                        &&& is_request_url(full_resource_url@)
                        &&& sigv4_headers(
                            final(self).identity.identity.credentials.access_key_id@,
                            final(self).identity.identity.credentials.secret_access_key@,
                            match final(self).identity.identity.credentials.session_token {
                                Some(token) => Some(token@),
                                None => None,
                            },
                            old(self).region@,
                            "s3"@,
                            time.nanos as int / 1_000_000_000,
                            (time.nanos as int % 1_000_000_000) as u32,
                            PayloadChecksum::XAmzSha256,
                            verb@,
                            full_resource_url@,
                            decoded(header_pairs(*old(headers))),
                            Seq::empty(),
                        ) matches Some(signed) && {
                            &&& signed.len() == if final(self).identity.identity.credentials.session_token is Some {
                                4int
                            } else {
                                3
                            }
                            &&& values_of(header_pairs(*final(headers)), "x-amz-date"@) == seq![
                                encode_utf8(signed[0].1),
                            ]
                            &&& values_of(header_pairs(*final(headers)), "authorization"@) == seq![
                                encode_utf8(signed[1].1),
                            ]
                            &&& values_of(header_pairs(*final(headers)), "x-amz-content-sha256"@) == seq![
                                encode_utf8(signed[2].1),
                            ]
                            &&& final(self).identity.identity.credentials.session_token is Some ==> values_of(
                                header_pairs(*final(headers)),
                                "x-amz-security-token"@,
                            ) == seq![encode_utf8(signed[3].1)]
                            &&& forall|other: Seq<char>|
                                other != "x-amz-date"@ && other != "authorization"@ && other
                                    != "x-amz-content-sha256"@ && other != "x-amz-security-token"@
                                    ==> #[trigger] values_of(header_pairs(*final(headers)), other) == values_of(
                                    header_pairs(*old(headers)),
                                    other,
                                )
                        }
                    },
            r matches Err(SignError::Credentials(e)) ==> {
                &&& provide.ensures((), Err::<Credentials, E>(e))
                &&& final(self).identity == old(self).identity
            },
            !(r is Ok) && !(r matches Err(SignError::Fault(SignFault::HeaderName(_)))) && !(
            r matches Err(SignError::Fault(SignFault::HeaderValue(_)))) ==> header_pairs(
                *final(headers),
            ) == header_pairs(*old(headers)),
            final(self).region == old(self).region,
            final(self).scheme == old(self).scheme,
            final(self).object_prefix == old(self).object_prefix,
            final(self).endpoint == old(self).endpoint,
            final(self).bucket_name == old(self).bucket_name,
            final(self).retry_limit == old(self).retry_limit,
    {
        let now: Timestamp = SystemTimeSource.now();
        let refreshed = self.identity.refresh(now, provide);
        let ghost outcome = refreshed;
        let time: Timestamp = SystemTimeSource.now();
        let r: Result<(), SignError<E>> = match refreshed {
            Err(e) => Err(SignError::Credentials(e)),
            Ok(()) => if !signable(&*headers, full_resource_url, time) {
                Err(SignError::Unsupported)
            } else {
                match self.sign_with_identity(verb, headers, full_resource_url, time) {
                    Ok(()) => Ok(()),
                    Err(fault) => Err(SignError::Fault(fault)),
                }
            },
        };
        assert(refreshes(
            old(self).identity.identity,
            self.identity.identity,
            now,
            provide,
            outcome,
        ));
        assert(sign_outcome(
            *old(self),
            *self,
            provide,
            verb@,
            full_resource_url@,
            now,
            time,
            header_pairs(*old(headers)),
            header_pairs(*headers),
            r,
        ));
        r
    }
}

} // verus!
