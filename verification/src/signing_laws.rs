//! Laws of signing, over the headers of a request.

use vstd::prelude::*;
use vstd::utf8::{decode_utf8, encode_utf8, valid_utf8};

use crate::headers::{
    ascii_lower, is_header_name, is_header_text, law_set_header_is_the_only_one,
    lemma_with_header_names, names_of, values_of, with_header,
};
use crate::identity::{Credentials, Timestamp};
use crate::request_url::{is_absolute, query_fits};
use crate::s3::S3State;
use crate::signing::{
    apply_all, can_sign, decoded, is_signature, sign_outcome, signature_of, signs, SignError,
    SignFault,
};
use crate::sigv4::{
    first_names, is_request_url, signed_names, sigv4_headers, PayloadChecksum, EMPTY_SHA256,
};

verus! {

/// Headers that are applied and have no namesake behind them are then the only
/// ones of their names.
pub proof fn law_applied_headers_are_set(
    pairs: Seq<(Seq<char>, Seq<u8>)>,
    signed: Seq<(Seq<char>, Seq<char>)>,
    i: int,
)
    requires
        apply_all(pairs, signed).1 is All,
        0 <= i < signed.len(),
        forall|k: int|
            i < k < signed.len() ==> ascii_lower((#[trigger] signed[k]).0) != ascii_lower(
                signed[i].0,
            ),
    ensures
        values_of(apply_all(pairs, signed).0, ascii_lower(signed[i].0)) == seq![
            encode_utf8(signed[i].1),
        ],
    decreases signed.len(),
{
    let name = ascii_lower(signed[0].0);
    let value = encode_utf8(signed[0].1);
    let next = with_header(pairs, name, value);
    let rest = signed.drop_first();
    if i == 0 {
        law_set_header_is_the_only_one(pairs, name, value, name);
        assert forall|k: int| 0 <= k < rest.len() implies ascii_lower((#[trigger] rest[k]).0)
            != name by {
            assert(rest[k] == signed[k + 1]);
        }
        law_applied_headers_leave_others(next, rest, name);
    } else {
        assert forall|k: int| i - 1 < k < rest.len() implies ascii_lower((#[trigger] rest[k]).0)
            != ascii_lower(rest[i - 1].0) by {
            assert(rest[k] == signed[k + 1]);
        }
        law_applied_headers_are_set(next, rest, i - 1);
    }
}

/// Applying headers leaves the values of all other names as they are, however it
/// ends.
pub proof fn law_applied_headers_leave_others(
    pairs: Seq<(Seq<char>, Seq<u8>)>,
    signed: Seq<(Seq<char>, Seq<char>)>,
    other: Seq<char>,
)
    requires
        forall|k: int|
            0 <= k < signed.len() ==> ascii_lower((#[trigger] signed[k]).0) != other,
    ensures
        values_of(apply_all(pairs, signed).0, other) == values_of(pairs, other),
    decreases signed.len(),
{
    if signed.len() > 0 && is_header_name(signed[0].0) && is_header_text(signed[0].1) {
        let name = ascii_lower(signed[0].0);
        let value = encode_utf8(signed[0].1);
        let rest = signed.drop_first();
        law_set_header_is_the_only_one(pairs, name, value, other);
        assert forall|k: int| 0 <= k < rest.len() implies ascii_lower((#[trigger] rest[k]).0)
            != other by {
            assert(rest[k] == signed[k + 1]);
        }
        law_applied_headers_leave_others(with_header(pairs, name, value), rest, other);
    }
}

/// The names of the headers of a signature are in lower case and differ.
proof fn lemma_signed_names(has_token: bool)
    ensures
        ({
            let names = signed_names(PayloadChecksum::XAmzSha256, has_token);
            &&& forall|k: int| 0 <= k < names.len() ==> #[trigger] ascii_lower(names[k]) == names[k]
            &&& forall|j: int, k: int| 0 <= j < k < names.len() ==> names[j] != names[k]
        }),
{
    reveal_strlit("x-amz-date");
    reveal_strlit("authorization");
    reveal_strlit("x-amz-content-sha256");
    reveal_strlit("x-amz-security-token");
    let names = signed_names(PayloadChecksum::XAmzSha256, has_token);
    assert(names[0].len() == 10 && names[1].len() == 13 && names[2].len() == 20);
    assert(has_token ==> names[3][6] == 's');
    assert(names[2][6] == 'c');
    assert forall|k: int| 0 <= k < names.len() implies #[trigger] ascii_lower(names[k])
        == names[k] by {
        assert(ascii_lower(names[k]) =~= names[k]);
    }
}

/// The address of an object says which host it is on, whatever the object and
/// the query, unless the scheme begins like a path.
pub proof fn law_url_says_its_host(
    scheme: Seq<char>,
    endpoint: Seq<char>,
    resource: Seq<char>,
)
    requires
        scheme.len() > 0 ==> scheme[0] != '/',
    ensures
        is_absolute(scheme + "://"@ + endpoint + resource),
{
    reveal_strlit("://");
    let url = scheme + "://"@ + endpoint + resource;
    assert(url[scheme.len() as int + 1] == '/');
    if scheme.len() == 0 {
        assert(url[0] == ':');
    } else {
        assert(url[0] == scheme[0]);
    }
}

/// Applying headers adds their names, and no others.
proof fn lemma_applied_names(
    pairs: Seq<(Seq<char>, Seq<u8>)>,
    signed: Seq<(Seq<char>, Seq<char>)>,
)
    requires
        apply_all(pairs, signed).1 is All,
    ensures
        forall|name: Seq<char>| #[trigger]
            names_of(apply_all(pairs, signed).0).contains(name) <==> names_of(pairs).contains(name)
                || exists|k: int|
                0 <= k < signed.len() && ascii_lower((#[trigger] signed[k]).0) == name,
    decreases signed.len(),
{
    if signed.len() > 0 {
        let first = ascii_lower(signed[0].0);
        let next = with_header(pairs, first, encode_utf8(signed[0].1));
        let rest = signed.drop_first();
        lemma_with_header_names(pairs, first, encode_utf8(signed[0].1));
        lemma_applied_names(next, rest);
        assert(apply_all(pairs, signed) == apply_all(next, rest));
        assert forall|name: Seq<char>| #[trigger]
            names_of(apply_all(pairs, signed).0).contains(name) <==> names_of(pairs).contains(name)
                || exists|k: int|
                0 <= k < signed.len() && ascii_lower((#[trigger] signed[k]).0) == name by {
            if exists|k: int| 0 <= k < rest.len() && ascii_lower((#[trigger] rest[k]).0) == name {
                let k = choose|k: int|
                    0 <= k < rest.len() && ascii_lower((#[trigger] rest[k]).0) == name;
                assert(signed[k + 1] == rest[k]);
            }
            if exists|k: int|
                0 <= k < signed.len() && ascii_lower((#[trigger] signed[k]).0) == name {
                let k = choose|k: int|
                    0 <= k < signed.len() && ascii_lower((#[trigger] signed[k]).0) == name;
                if k > 0 {
                    assert(rest[k - 1] == signed[k]);
                }
            }
            assert(names_of(next).contains(name) <==> names_of(pairs).contains(name) || name
                == first);
            if name == first {
                assert(ascii_lower(signed[0].0) == name);
            }
        }
    }
}

/// Whether the headers `after` are `before` with those of a signature set: each
/// name of the signature has its value and no other, every other name has the
/// values that it had, and there are no further names.
pub open spec fn carries(
    after: Seq<(Seq<char>, Seq<u8>)>,
    signed: Seq<(Seq<char>, Seq<char>)>,
    before: Seq<(Seq<char>, Seq<u8>)>,
) -> bool {
    &&& forall|k: int|
        0 <= k < signed.len() ==> values_of(after, (#[trigger] signed[k]).0) == seq![
            encode_utf8(signed[k].1),
        ]
    &&& forall|other: Seq<char>|
        !first_names(signed).contains(other) ==> #[trigger] values_of(after, other) == values_of(
            before,
            other,
        )
    &&& names_of(after) == names_of(before).union(first_names(signed).to_set())
}

/// A request that was signed carries the signature: one value each of
/// `x-amz-date`, `authorization` and `x-amz-content-sha256`, and of
/// `x-amz-security-token` where there is a session token, whatever values of
/// these it had before. The checksum is that of an empty body. Every other
/// header is as it was.
pub proof fn law_signed_request_carries_signature(
    signed: Seq<(Seq<char>, Seq<char>)>,
    has_token: bool,
    before: Seq<(Seq<char>, Seq<u8>)>,
    after: Seq<(Seq<char>, Seq<u8>)>,
)
    requires
        is_signature(signed, has_token),
        signs(Some(signed), before, after, Ok(())),
    ensures
        carries(after, signed, before),
        values_of(after, "x-amz-content-sha256"@) == seq![encode_utf8(EMPTY_SHA256@)],
{
    let names = signed_names(PayloadChecksum::XAmzSha256, has_token);
    lemma_signed_names(has_token);
    assert(signed.len() == names.len()) by {
        assert(first_names(signed).len() == signed.len());
    }
    assert forall|j: int| 0 <= j < signed.len() implies (#[trigger] signed[j]).0 == names[j]
        && ascii_lower(signed[j].0) == names[j] by {
        assert(first_names(signed)[j] == signed[j].0);
        assert(ascii_lower(names[j]) == names[j]);
    }
    assert forall|k: int| 0 <= k < signed.len() implies values_of(after, (#[trigger] signed[k]).0)
        == seq![encode_utf8(signed[k].1)] by {
        law_applied_headers_are_set(before, signed, k);
    }
    assert(signed[2].0 == "x-amz-content-sha256"@);
    assert forall|other: Seq<char>|
        !first_names(signed).contains(other) implies #[trigger] values_of(after, other)
        == values_of(before, other) by {
        assert forall|k: int| 0 <= k < signed.len() implies ascii_lower((#[trigger] signed[k]).0)
            != other by {
            assert(first_names(signed)[k] == signed[k].0);
        }
        law_applied_headers_leave_others(before, signed, other);
    }
    lemma_applied_names(before, signed);
    assert forall|name: Seq<char>| #[trigger]
        names_of(after).contains(name) <==> names_of(before).union(
            first_names(signed).to_set(),
        ).contains(name) by {
        if first_names(signed).contains(name) {
            let k = choose|k: int|
                0 <= k < first_names(signed).len() && first_names(signed)[k] == name;
            assert(ascii_lower(signed[k].0) == name);
        }
        if exists|k: int| 0 <= k < signed.len() && ascii_lower((#[trigger] signed[k]).0) == name {
            let k = choose|k: int|
                0 <= k < signed.len() && ascii_lower((#[trigger] signed[k]).0) == name;
            assert(first_names(signed)[k] == name);
        }
    }
    assert(names_of(after) =~= names_of(before).union(first_names(signed).to_set()));
}

/// A request that `sign` has signed carries the signature of the identity that
/// it left.
pub proof fn law_sign_carries_signature<E, P: FnOnce() -> Result<Credentials, E>>(
    before: S3State,
    after: S3State,
    provide: P,
    verb: Seq<char>,
    url: Seq<char>,
    now: Timestamp,
    time: Timestamp,
    pairs: Seq<(Seq<char>, Seq<u8>)>,
    signed: Seq<(Seq<char>, Seq<u8>)>,
)
    requires
        sign_outcome(
            before,
            after,
            provide,
            verb,
            url,
            now,
            time,
            pairs,
            signed,
            Ok::<(), SignError<E>>(()),
        ),
    ensures
        ({
            let credentials = after.identity.identity.credentials;
            signature_of(before.region@, credentials, verb, url, time, pairs) matches Some(s)
                && is_signature(s, credentials.session_token is Some) && carries(signed, s, pairs)
        }),
        values_of(signed, "x-amz-content-sha256"@) == seq![encode_utf8(EMPTY_SHA256@)],
{
    let credentials = after.identity.identity.credentials;
    let signature = signature_of(before.region@, credentials, verb, url, time, pairs);
    law_signed_request_carries_signature(
        signature->Some_0,
        credentials.session_token is Some,
        pairs,
        signed,
    );
}

/// Signing a signed request again leaves the set of names as it is, and replaces
/// the first signature by the second: each of its headers has one value, that of
/// the second signature. This holds unless the second identity alone has a
/// session token.
pub proof fn law_signing_again_replaces_signature<
    E,
    P: FnOnce() -> Result<Credentials, E>,
    Q: FnOnce() -> Result<Credentials, E>,
>(
    start: S3State,
    mid: S3State,
    end: S3State,
    provide: P,
    provide_again: Q,
    verb: Seq<char>,
    url: Seq<char>,
    now: (Timestamp, Timestamp),
    time: (Timestamp, Timestamp),
    pairs: Seq<(Seq<char>, Seq<u8>)>,
    once: Seq<(Seq<char>, Seq<u8>)>,
    twice: Seq<(Seq<char>, Seq<u8>)>,
)
    requires
        sign_outcome(
            start,
            mid,
            provide,
            verb,
            url,
            now.0,
            time.0,
            pairs,
            once,
            Ok::<(), SignError<E>>(()),
        ),
        sign_outcome(
            mid,
            end,
            provide_again,
            verb,
            url,
            now.1,
            time.1,
            once,
            twice,
            Ok::<(), SignError<E>>(()),
        ),
        end.identity.identity.credentials.session_token is Some
            ==> mid.identity.identity.credentials.session_token is Some,
    ensures
        names_of(twice) == names_of(once),
        signature_of(
            mid.region@,
            end.identity.identity.credentials,
            verb,
            url,
            time.1,
            once,
        ) matches Some(second) && is_signature(
            second,
            end.identity.identity.credentials.session_token is Some,
        ) && carries(twice, second, once),
{
    law_sign_carries_signature(
        start,
        mid,
        provide,
        verb,
        url,
        now.0,
        time.0,
        pairs,
        once,
    );
    law_sign_carries_signature(
        mid,
        end,
        provide_again,
        verb,
        url,
        now.1,
        time.1,
        once,
        twice,
    );
    let first_set = signed_names(
        PayloadChecksum::XAmzSha256,
        mid.identity.identity.credentials.session_token is Some,
    );
    let second_set = signed_names(
        PayloadChecksum::XAmzSha256,
        end.identity.identity.credentials.session_token is Some,
    );
    assert forall|name: Seq<char>| second_set.contains(name) implies #[trigger] first_set.contains(
        name,
    ) by {
        let k = choose|k: int| 0 <= k < second_set.len() && second_set[k] == name;
        assert(first_set[k] == name);
    }
    assert forall|name: Seq<char>| #[trigger]
        names_of(twice).contains(name) <==> names_of(once).contains(name) by {
        if second_set.contains(name) {
            assert(first_set.contains(name));
            assert(first_set.to_set().contains(name));
        }
    }
    assert(names_of(twice) =~= names_of(once));
}

/// What carrying a signature comes to for each header by its name.
pub proof fn lemma_carried_headers(
    signed: Seq<(Seq<char>, Seq<char>)>,
    has_token: bool,
    before: Seq<(Seq<char>, Seq<u8>)>,
    after: Seq<(Seq<char>, Seq<u8>)>,
)
    requires
        is_signature(signed, has_token),
        carries(after, signed, before),
    ensures
        signed.len() == if has_token {
            4int
        } else {
            3
        },
        values_of(after, "x-amz-date"@) == seq![encode_utf8(signed[0].1)],
        values_of(after, "authorization"@) == seq![encode_utf8(signed[1].1)],
        values_of(after, "x-amz-content-sha256"@) == seq![encode_utf8(signed[2].1)],
        has_token ==> values_of(after, "x-amz-security-token"@) == seq![encode_utf8(signed[3].1)],
        forall|other: Seq<char>|
            other != "x-amz-date"@ && other != "authorization"@ && other != "x-amz-content-sha256"@
                && other != "x-amz-security-token"@ ==> #[trigger] values_of(after, other)
                == values_of(before, other),
{
    let names = signed_names(PayloadChecksum::XAmzSha256, has_token);
    assert(first_names(signed).len() == signed.len());
    assert forall|j: int| 0 <= j < signed.len() implies (#[trigger] signed[j]).0 == names[j] by {
        assert(first_names(signed)[j] == signed[j].0);
    }
    assert(signed[0].0 == "x-amz-date"@);
    assert(signed[1].0 == "authorization"@);
    assert(signed[2].0 == "x-amz-content-sha256"@);
    assert(has_token ==> signed[3].0 == "x-amz-security-token"@);
    assert forall|other: Seq<char>|
        other != "x-amz-date"@ && other != "authorization"@ && other != "x-amz-content-sha256"@
            && other != "x-amz-security-token"@ implies #[trigger] values_of(after, other)
        == values_of(before, other) by {
        if first_names(signed).contains(other) {
            let k = choose|k: int|
                0 <= k < first_names(signed).len() && first_names(signed)[k] == other;
            assert(signed[k].0 == names[k]);
        }
    }
}

/// The signature of a request is that which `sigv4_headers` gives for that very
/// request: for its own verb, URL and headers, the key of the credentials, the
/// region, the service `s3`, the date, and an empty body.
pub proof fn law_signature_is_of_the_very_request(
    region: Seq<char>,
    credentials: Credentials,
    verb: Seq<char>,
    url: Seq<char>,
    time: Timestamp,
    pairs: Seq<(Seq<char>, Seq<u8>)>,
)
    ensures
        is_request_url(url) ==> signature_of(region, credentials, verb, url, time, pairs)
            == sigv4_headers(
            credentials.access_key_id@,
            credentials.secret_access_key@,
            match credentials.session_token {
                Some(token) => Some(token@),
                None => None,
            },
            region,
            "s3"@,
            time.nanos as int / 1_000_000_000,
            (time.nanos as int % 1_000_000_000) as u32,
            PayloadChecksum::XAmzSha256,
            verb,
            url,
            decoded(pairs),
            Seq::empty(),
        ),
        !is_request_url(url) ==> signature_of(region, credentials, verb, url, time, pairs) is None,
        decoded(pairs).len() == pairs.len(),
        forall|i: int|
            0 <= i < pairs.len() ==> #[trigger] decoded(pairs)[i] == (
                pairs[i].0,
                decode_utf8(pairs[i].1),
            ),
{
}

/// Without a signature a request stays as it is and is reported as one that
/// cannot be signed; with one, signing succeeds exactly where all headers of the
/// signature are well-formed.
pub proof fn law_signing_succeeds_with_a_well_formed_signature(
    signature: Option<Seq<(Seq<char>, Seq<char>)>>,
    before: Seq<(Seq<char>, Seq<u8>)>,
    after: Seq<(Seq<char>, Seq<u8>)>,
    r: Result<(), SignFault>,
)
    requires
        signs(signature, before, after, r),
    ensures
        signature is None ==> after == before && r matches Err(SignFault::Signing(_)),
        signature matches Some(signed) ==> {
            &&& r is Ok <==> forall|k: int|
                0 <= k < signed.len() ==> is_header_name((#[trigger] signed[k]).0)
                    && is_header_text(signed[k].1)
            &&& !(r matches Err(SignFault::Signing(_)))
        },
{
    if let Some(signed) = signature {
        lemma_applied_all(before, signed);
    }
}

/// All headers are applied exactly where all are well-formed.
proof fn lemma_applied_all(
    pairs: Seq<(Seq<char>, Seq<u8>)>,
    signed: Seq<(Seq<char>, Seq<char>)>,
)
    ensures
        apply_all(pairs, signed).1 is All <==> forall|k: int|
            0 <= k < signed.len() ==> is_header_name((#[trigger] signed[k]).0) && is_header_text(
                signed[k].1,
            ),
    decreases signed.len(),
{
    if signed.len() > 0 {
        let rest = signed.drop_first();
        lemma_applied_all(
            with_header(pairs, ascii_lower(signed[0].0), encode_utf8(signed[0].1)),
            rest,
        );
        assert forall|k: int| 0 <= k < rest.len() implies #[trigger] rest[k] == signed[k + 1] by {}
        if forall|k: int|
            0 <= k < signed.len() ==> is_header_name((#[trigger] signed[k]).0) && is_header_text(
                signed[k].1,
            ) {
            assert(is_header_name(signed[0].0));
            assert forall|k: int| 0 <= k < rest.len() implies is_header_name((#[trigger] rest[k]).0)
                && is_header_text(rest[k].1) by {
                assert(rest[k] == signed[k + 1]);
            }
        }
        if apply_all(pairs, signed).1 is All {
            assert forall|k: int|
                0 <= k < signed.len() implies is_header_name((#[trigger] signed[k]).0)
                && is_header_text(signed[k].1) by {
                if k > 0 {
                    assert(rest[k - 1] == signed[k]);
                }
            }
        }
    }
}

/// Headers are applied one after the other: one that is not well-formed stops it
/// and is told by what is wrong with it, name before value; well-formed ones are
/// set, and those behind them are applied to the result.
pub proof fn law_headers_are_applied_in_order(
    pairs: Seq<(Seq<char>, Seq<u8>)>,
    name: Seq<char>,
    value: Seq<char>,
    rest: Seq<(Seq<char>, Seq<char>)>,
)
    ensures
        apply_all(pairs, Seq::empty()).0 == pairs,
        apply_all(pairs, Seq::empty()).1 is All,
        ({
            let all = apply_all(pairs, seq![(name, value)] + rest);
            if !is_header_name(name) {
                all.0 == pairs && all.1 is AtName
            } else if !is_header_text(value) {
                all.0 == pairs && all.1 is AtValue
            } else {
                all == apply_all(
                    with_header(pairs, ascii_lower(name), encode_utf8(value)),
                    rest,
                )
            }
        }),
{
    assert((seq![(name, value)] + rest).drop_first() =~= rest);
}

/// Signing takes every request whose URL is malformed, to report it, and every
/// request with a well-formed URL that says its host, text for values, at most
/// 6549 names and a date up to the year 9999, unless its query is too long.
pub proof fn law_signing_takes_ordinary_requests(
    pairs: Seq<(Seq<char>, Seq<u8>)>,
    url: Seq<char>,
    time: Timestamp,
)
    ensures
        !is_request_url(url) ==> can_sign(pairs, url, time),
        is_request_url(url) ==> (can_sign(pairs, url, time) <==> {
            &&& forall|i: int| 0 <= i < pairs.len() ==> valid_utf8((#[trigger] pairs[i]).1)
            &&& (url.len() > 0 && url[0] != '/' && url.contains('/')) || ((url == "*"@ || (url.len()
                > 0 && url[0] == '/')) && names_of(pairs).contains("host"@))
            &&& query_fits(url)
            &&& pairs.len() <= 24576
            &&& names_of(pairs).len() <= 6549
            &&& -377705116800 * 1_000_000_000 <= time.nanos < 253402300800 * 1_000_000_000
        }),
{
}

/// A request that is not one that signing takes is not changed and is reported
/// as such, after the identity was refreshed; where that fails, it is its failure
/// that is reported, and nothing is changed.
pub proof fn law_unsigned_requests_are_left_alone<E, P: FnOnce() -> Result<Credentials, E>>(
    before: S3State,
    after: S3State,
    provide: P,
    verb: Seq<char>,
    url: Seq<char>,
    now: Timestamp,
    time: Timestamp,
    pairs: Seq<(Seq<char>, Seq<u8>)>,
    signed: Seq<(Seq<char>, Seq<u8>)>,
    r: Result<(), SignError<E>>,
)
    requires
        sign_outcome(before, after, provide, verb, url, now, time, pairs, signed, r),
    ensures
        after.region == before.region,
        r matches Err(SignError::Credentials(e)) ==> {
            &&& signed == pairs
            &&& after.identity.identity == before.identity.identity
            &&& provide.ensures((), Err::<Credentials, E>(e))
            &&& before.identity.identity.expiration matches Some(expiry) && now.nanos
                >= expiry.nanos - 600_000_000_000
        },
        r matches Err(SignError::Unsupported) ==> signed == pairs && !can_sign(pairs, url, time),
        !(r matches Err(SignError::Credentials(_))) ==> {
            &&& can_sign(pairs, url, time) <==> !(r matches Err(SignError::Unsupported))
            &&& is_request_url(url) || r matches Err(SignError::Fault(SignFault::Signing(_)))
        },
{
}

} // verus!
