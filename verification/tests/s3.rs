use std::cell::{Cell, RefCell};
use std::time::{Duration, SystemTime, UNIX_EPOCH};

use http::{HeaderMap, HeaderValue, Method};
use nydus_storage::identity::{
    static_credentials, time_of_reading, Credentials, Identity, RefreshingIdentity,
    SystemTimeSource, Timestamp, EXPIRATION_SLACK, NANOS_PER_SEC,
};
use nydus_storage::s3::{S3Config, S3State, S3, S3_DEFAULT_ENDPOINT};
use nydus_storage::signing::{apply_headers, signable, SignError, SignFault};

fn secs(n: u64) -> Timestamp {
    Timestamp::since_epoch(n, 0)
}

fn credentials(expiry: Option<Timestamp>) -> Credentials {
    Credentials {
        access_key_id: "test-key".to_string(),
        secret_access_key: "test-secret".to_string(),
        session_token: None,
        expiry,
        provider_name: "mock".to_string(),
    }
}

fn no_credentials() -> Result<Credentials, String> {
    Err("no credentials".to_string())
}

fn get_test_s3_state() -> (S3State, String, String) {
    let identity = RefreshingIdentity::new(|| {
        Ok::<Credentials, String>(static_credentials("test-key", "test-key-secret"))
    })
    .unwrap();
    let state = S3State {
        region: "us-east-1".to_string(),
        scheme: "http".to_string(),
        object_prefix: "test-prefix-".to_string(),
        endpoint: "localhost:9000".to_string(),
        bucket_name: "test-bucket".to_string(),
        retry_limit: 6,
        identity,
    };
    let (resource, url) = state.url("test-object", &["a=b", "c=d"]);
    (state, resource, url)
}

fn range_headers() -> HeaderMap {
    let mut headers = HeaderMap::new();
    headers.append("Range", "bytes=5242900-".parse().unwrap());
    headers
}

fn config_of(text: &str) -> S3Config {
    let config: serde_json::Value = serde_json::from_str(text).unwrap();
    let field = |name: &str, default: &str| config[name].as_str().unwrap_or(default).to_string();
    S3Config {
        scheme: field("scheme", "https"),
        endpoint: field("endpoint", ""),
        region: field("region", ""),
        bucket_name: field("bucket_name", ""),
        object_prefix: field("object_prefix", ""),
        access_key_id: field("access_key_id", ""),
        access_key_secret: field("access_key_secret", ""),
        retry_limit: config["retry_limit"].as_u64().unwrap_or(0) as u8,
    }
}

#[test]
fn test_s3_new() {
    let config_str = r#"{
            "endpoint": "https://test.com",
            "region": "us-east-1",
            "access_key_id": "test",
            "access_key_secret": "test",
            "bucket_name": "antsys-nydus",
            "object_prefix":"nydus_v2/",
            "retry_limit": 6
        }"#;
    let config = config_of(config_str);
    let s3: S3<()> = S3::new(
        &config,
        Some("test-image"),
        |_: &S3Config| Ok::<(), String>(()),
        |_: &str| no_credentials(),
    )
    .unwrap();

    let metrics = s3.metrics.unwrap();
    assert_eq!(metrics.id, "test-image");
    assert_eq!(metrics.backend, "oss");
    assert_eq!(s3.id.unwrap(), "test-image");

    assert_eq!(s3.state.retry_limit(), 6);
    assert_eq!(s3.state.endpoint, "https://test.com");
    assert_eq!(s3.state.region, "us-east-1");
    assert_eq!(s3.state.scheme, "https");
    assert_eq!(s3.state.bucket_name, "antsys-nydus");
    assert_eq!(s3.state.object_prefix, "nydus_v2/");
}

#[test]
fn test_s3_state_url() {
    let (_, resource, url) = get_test_s3_state();
    assert_eq!(resource, "/test-bucket/test-prefix-test-object?a=b&c=d");
    assert_eq!(
        url,
        "http://localhost:9000/test-bucket/test-prefix-test-object?a=b&c=d"
    );
}

#[test]
fn test_s3_state_sign() {
    let (mut state, resource, url) = get_test_s3_state();
    println!("{url}");
    let mut headers = HeaderMap::new();
    headers.append("Range", "bytes=5242900-".parse().unwrap());
    let result = state.sign(
        Method::GET.as_str(),
        &mut headers,
        &resource,
        &url,
        no_credentials,
    );
    assert!(result.is_ok());

    let re = regex::Regex::new(r"^AWS4-HMAC-SHA256 Credential=test-key/[0-9]{8}/us-east-1/s3/aws4_request, SignedHeaders=host;range;x-amz-content-sha256;x-amz-date, Signature=[A-Fa-f0-9]{64}$").unwrap();
    let authorization = headers.get("Authorization").unwrap();
    println!("{authorization:?}");
    assert!(re.is_match(authorization.to_str().unwrap()));
}

#[test]
fn test_s3_refresh_credentials() {
    let now = Cell::new(secs(0));
    let provide = || {
        let expiry = Timestamp {
            nanos: now.get().nanos + 60 * 60 * NANOS_PER_SEC,
        };
        Ok::<Credentials, String>(credentials(Some(expiry)))
    };

    let mut identity = RefreshingIdentity::new(provide).unwrap();

    // advance to 5 mins before expiration
    now.set(secs(55 * 60));

    identity
        .with_identity(now.get(), provide, |ident: &Identity| {
            assert!(
                ident.expiration().unwrap().nanos
                    == now.get().nanos + 60 * 60 * NANOS_PER_SEC
            );
            Ok(())
        })
        .unwrap();
}

#[test]
fn url_without_a_query() {
    let (state, _, _) = get_test_s3_state();
    let (resource, url) = state.url("o", &[]);
    assert_eq!(resource, "/test-bucket/test-prefix-o");
    assert_eq!(url, "http://localhost:9000/test-bucket/test-prefix-o");
    let (resource, _) = state.url("", &["a"]);
    assert_eq!(resource, "/test-bucket/test-prefix-?a");
    assert_ne!(state.url("o", &["a"]).0, state.url("p", &["a"]).0);
}

#[test]
fn connection_failure_is_passed_on() {
    let config = config_of(r#"{"access_key_id": "k", "access_key_secret": "s"}"#);
    let r: Result<S3<()>, String> = S3::new(
        &config,
        None,
        |_: &S3Config| Err("refused".to_string()),
        |_: &str| no_credentials(),
    );
    assert_eq!(r.err().unwrap(), "refused");
}

#[test]
fn without_a_key_credentials_are_fetched_for_the_region() {
    for text in [
        r#"{"region": "eu", "access_key_secret": "s"}"#,
        r#"{"region": "eu", "access_key_id": "k"}"#,
        r#"{"region": "eu"}"#,
    ] {
        let config = config_of(text);
        let region = RefCell::new(String::new());
        let s3: S3<u8> = S3::new(
            &config,
            None,
            |_: &S3Config| Ok::<u8, String>(7),
            |r: &str| {
                *region.borrow_mut() = r.to_string();
                Ok(credentials(Some(secs(9))))
            },
        )
        .unwrap();
        assert_eq!(*region.borrow(), "eu");
        assert_eq!(s3.connection, 7);
        assert_eq!(s3.state.identity.identity.expiration(), Some(secs(9)));
        assert_eq!(s3.state.identity.identity.credentials.access_key_id, "test-key");
        assert_eq!(s3.state.endpoint, S3_DEFAULT_ENDPOINT);
        assert_eq!(s3.state.endpoint, "s3.amazonaws.com");
        assert!(s3.id.is_none());
        assert!(s3.metrics.is_none());

        let r: Result<S3<u8>, String> = S3::new(
            &config,
            None,
            |_: &S3Config| Ok(7),
            |_: &str| no_credentials(),
        );
        assert_eq!(r.err().unwrap(), "no credentials");
    }
}

#[test]
fn static_credentials_never_expire() {
    let c = static_credentials("id", "secret");
    assert_eq!(c.access_key_id, "id");
    assert_eq!(c.secret_access_key, "secret");
    assert!(c.session_token.is_none());
    assert!(c.expiry.is_none());
    assert_eq!(c.provider_name, "static");
    let mut identity =
        RefreshingIdentity::new(|| Ok::<Credentials, String>(static_credentials("id", "secret")))
            .unwrap();
    assert!(!identity.need_refresh(secs(u64::MAX)));
    identity.refresh(secs(u64::MAX), no_credentials).unwrap();
}

#[test]
fn identities_are_replaced_ten_minutes_before_they_expire() {
    assert_eq!(EXPIRATION_SLACK, 10 * 60 * NANOS_PER_SEC);
    let identity =
        RefreshingIdentity::new(|| Ok::<Credentials, String>(credentials(Some(secs(3600)))))
            .unwrap();
    assert!(!identity.need_refresh(secs(0)));
    assert!(!identity.need_refresh(Timestamp::since_epoch(2999, 999_999_999)));
    assert!(identity.need_refresh(secs(3000)));
    assert!(identity.need_refresh(secs(3001)));
    assert!(identity.need_refresh(secs(4000)));
}

#[test]
fn expirations_at_the_end_of_time() {
    let at = |secs: i128| {
        let expiry = Timestamp {
            nanos: secs * NANOS_PER_SEC,
        };
        RefreshingIdentity::new(|| Ok::<Credentials, String>(credentials(Some(expiry)))).unwrap()
    };
    assert!(at(0).slack_fits());
    assert!(at(i64::MAX as i128).slack_fits());
    assert!(at(i64::MIN as i128 + 600).slack_fits());
    assert!(!at(i64::MIN as i128 + 599).slack_fits());
    assert!(!at(i64::MAX as i128 + 601).slack_fits());
}

#[test]
fn outside_steps_are_taken_only_where_they_are_due() {
    let asked = Cell::new(0);
    let provide = || {
        asked.set(asked.get() + 1);
        Ok::<Credentials, String>(credentials(Some(secs(7200))))
    };
    let mut identity =
        RefreshingIdentity::new(|| Ok::<Credentials, String>(credentials(Some(secs(3600)))))
            .unwrap();
    identity.refresh(secs(2999), provide).unwrap();
    assert_eq!(asked.get(), 0);
    identity
        .with_identity(secs(3000), provide, |_: &Identity| Ok(()))
        .unwrap();
    assert_eq!(asked.get(), 1);
    // The new identity is kept, also where its user failed
    let r = identity.with_identity(secs(3001), provide, |_: &Identity| Err("f".to_string()));
    assert_eq!(r.unwrap_err(), "f");
    identity.refresh(secs(6599), provide).unwrap();
    assert_eq!(asked.get(), 1);

    let config = config_of(r#"{"access_key_id": "k", "access_key_secret": "s"}"#);
    let fetch = |_: &str| {
        asked.set(asked.get() + 1);
        no_credentials()
    };
    let s3: Result<S3<()>, String> = S3::new(&config, None, |_: &S3Config| Ok(()), fetch);
    assert!(s3.is_ok());
    assert_eq!(asked.get(), 1);
    // Without a connection no credentials are fetched
    let config = config_of("{}");
    let s3: Result<S3<()>, String> =
        S3::new(&config, None, |_: &S3Config| Err("down".to_string()), fetch);
    assert!(s3.is_err());
    assert_eq!(asked.get(), 1);
}

#[test]
fn failed_refresh_keeps_the_identity() {
    let mut identity =
        RefreshingIdentity::new(|| Ok::<Credentials, String>(credentials(Some(secs(3600)))))
            .unwrap();
    assert_eq!(identity.refresh(secs(3000), no_credentials).unwrap_err(), "no credentials");
    assert_eq!(identity.identity.expiration(), Some(secs(3600)));
    let called = Cell::new(false);
    let r = identity.with_identity(secs(3000), no_credentials, |_: &Identity| {
        called.set(true);
        Ok(())
    });
    assert_eq!(r.unwrap_err(), "no credentials");
    assert!(!called.get());
    assert!(RefreshingIdentity::new(no_credentials).is_err());
}

#[test]
fn identity_that_is_good_is_used_as_it_is() {
    let mut identity =
        RefreshingIdentity::new(|| Ok::<Credentials, String>(credentials(Some(secs(3600)))))
            .unwrap();
    let r = identity.with_identity(secs(2999), no_credentials, |ident: &Identity| {
        assert_eq!(ident.expiration(), Some(secs(3600)));
        Err("from the caller".to_string())
    });
    assert_eq!(r.unwrap_err(), "from the caller");
    identity.install(credentials(None));
    assert_eq!(identity.identity.expiration(), None);
}

#[test]
fn timestamps_count_from_the_epoch() {
    assert_eq!(Timestamp::since_epoch(2, 5).nanos, 2_000_000_005);
    assert_eq!(Timestamp::before_epoch(2, 5).nanos, -2_000_000_005);
    assert_eq!(time_of_reading(Ok((2, 5))).nanos, 2_000_000_005);
    assert_eq!(time_of_reading(Err((2, 5))).nanos, -2_000_000_005);
    let before = SystemTime::now().duration_since(UNIX_EPOCH).unwrap();
    let now = SystemTimeSource.now().nanos;
    let after = SystemTime::now().duration_since(UNIX_EPOCH).unwrap();
    assert!(before.as_nanos() as i128 <= now);
    assert!(now <= after.as_nanos() as i128);
    assert!(after - before < Duration::from_secs(20));
}

// 2015-08-30T12:36:00Z
const SIGNING_TIME: u64 = 1_440_938_160;

const EMPTY_SHA256: &str = "e3b0c44298fc1c149afbf4c8996fb92427ae41e4649b934ca495991b7852b855";

#[test]
fn signature_of_a_request() {
    let (state, _, url) = get_test_s3_state();
    let mut headers = range_headers();
    state
        .sign_with_identity("GET", &mut headers, &url, Timestamp::since_epoch(SIGNING_TIME, 1))
        .unwrap();
    let names: Vec<&str> = headers.keys().map(|k| k.as_str()).collect();
    assert_eq!(
        names,
        ["range", "x-amz-date", "authorization", "x-amz-content-sha256"]
    );
    assert_eq!(headers.len(), 4);
    assert_eq!(headers["range"], "bytes=5242900-");
    assert_eq!(headers["x-amz-date"], "20150830T123600Z");
    assert_eq!(headers["x-amz-content-sha256"], EMPTY_SHA256);
    assert_eq!(
        headers["authorization"],
        "AWS4-HMAC-SHA256 Credential=test-key/20150830/us-east-1/s3/aws4_request, \
         SignedHeaders=host;range;x-amz-content-sha256;x-amz-date, \
         Signature=29c036e42ffbe67d042a261b346528491e15991d934bf56a1525e335a60d0c28"
    );
}

#[test]
fn signature_with_a_session_token() {
    let (mut state, _, url) = get_test_s3_state();
    state.identity.identity.credentials.session_token = Some("test-token".to_string());
    let mut headers = range_headers();
    state
        .sign_with_identity("GET", &mut headers, &url, secs(SIGNING_TIME))
        .unwrap();
    assert_eq!(headers["x-amz-security-token"], "test-token");
    assert_eq!(
        headers["authorization"],
        "AWS4-HMAC-SHA256 Credential=test-key/20150830/us-east-1/s3/aws4_request, \
         SignedHeaders=host;range;x-amz-content-sha256;x-amz-date;x-amz-security-token, \
         Signature=1b1b1f4269662ba7865b664c394d49512891a2efb1ac6fe2e4fc40d82e0f2b00"
    );
}

#[test]
fn signature_from_before_the_epoch() {
    let (state, _, url) = get_test_s3_state();
    let mut headers = range_headers();
    let time = Timestamp::before_epoch(1, 1);
    state
        .sign_with_identity("GET", &mut headers, &url, time)
        .unwrap();
    assert_eq!(headers["x-amz-date"], "19691231T235958Z");
    assert_eq!(
        headers["authorization"],
        "AWS4-HMAC-SHA256 Credential=test-key/19691231/us-east-1/s3/aws4_request, \
         SignedHeaders=host;range;x-amz-content-sha256;x-amz-date, \
         Signature=c0ddf457fc1081a6c1bfd4343bffde6e8722479bfd5b5d18b85243054b4a82b8"
    );
}

#[test]
fn first_and_last_date_of_a_signature() {
    let (state, _, url) = get_test_s3_state();
    let last = Timestamp::since_epoch(253_402_300_799, 999_999_999);
    let first = Timestamp::before_epoch(377_705_116_800, 0);
    for (time, date) in [(last, "99991231T235959Z"), (first, "-99990101T000000Z")] {
        let mut headers = range_headers();
        assert!(signable(&headers, &url, time));
        state
            .sign_with_identity("GET", &mut headers, &url, time)
            .unwrap();
        assert_eq!(headers["x-amz-date"], date);
    }
    let headers = range_headers();
    assert!(!signable(&headers, &url, Timestamp { nanos: last.nanos + 1 }));
    assert!(!signable(&headers, &url, Timestamp { nanos: first.nanos - 1 }));
}

#[test]
fn signing_again_replaces_the_signature() {
    let (state, _, url) = get_test_s3_state();
    let mut headers = range_headers();
    headers.append("x-amz-date", "stale".parse().unwrap());
    headers.append("x-other", "1".parse().unwrap());
    headers.append("x-amz-date", "staler".parse().unwrap());
    headers.append("x-other", "2".parse().unwrap());
    state
        .sign_with_identity("GET", &mut headers, &url, secs(SIGNING_TIME))
        .unwrap();
    let dates: Vec<&HeaderValue> = headers.get_all("x-amz-date").iter().collect();
    assert_eq!(dates, ["20150830T123600Z"]);
    let others: Vec<&HeaderValue> = headers.get_all("x-other").iter().collect();
    assert_eq!(others, ["1", "2"]);
    let names: Vec<&str> = headers.keys().map(|k| k.as_str()).collect();
    assert_eq!(
        names,
        ["range", "x-amz-date", "x-other", "authorization", "x-amz-content-sha256"]
    );
    let order: Vec<&str> = headers.iter().map(|(k, _)| k.as_str()).collect();
    assert_eq!(
        order,
        ["range", "x-amz-date", "x-other", "x-other", "authorization", "x-amz-content-sha256"]
    );
}

#[test]
fn addresses_that_are_none_are_not_signed() {
    let (mut state, _, _) = get_test_s3_state();
    for url in ["", "http://", "http:// /", "a b"] {
        let mut headers = range_headers();
        let r = state.sign_with_identity("GET", &mut headers, url, secs(SIGNING_TIME));
        assert!(matches!(r, Err(SignFault::Signing(_))));
        assert_eq!(headers, range_headers());
        let r = state.sign("GET", &mut headers, "", url, no_credentials);
        assert!(matches!(r, Err(SignError::Fault(SignFault::Signing(_)))));
        assert_eq!(headers, range_headers());
    }
}

#[test]
fn keys_that_fit_no_header_stop_the_signing() {
    let (mut state, _, url) = get_test_s3_state();
    state.identity.identity.credentials.access_key_id = "a\nb".to_string();
    let mut headers = range_headers();
    let r = state.sign_with_identity("GET", &mut headers, &url, secs(SIGNING_TIME));
    assert!(matches!(r, Err(SignFault::HeaderValue(_))));
    // The header before the bad one is set
    assert_eq!(headers.len(), 2);
    assert_eq!(headers["x-amz-date"], "20150830T123600Z");
}

#[test]
fn requests_that_signing_does_not_take() {
    let (mut state, _, url) = get_test_s3_state();
    let time = secs(SIGNING_TIME);
    let mut hosted = HeaderMap::new();
    hosted.append("Host", "localhost".parse().unwrap());
    assert!(signable(&HeaderMap::new(), &url, time));

    // A path needs a host beside it
    for path in ["/only/a/path", "/", "/a?b", "*"] {
        let mut headers = HeaderMap::new();
        assert!(!signable(&headers, path, time));
        let r = state.sign("GET", &mut headers, "", path, no_credentials);
        assert!(matches!(r, Err(SignError::Unsupported)));
        assert!(headers.is_empty());

        let mut headers = hosted.clone();
        assert!(signable(&headers, path, time));
        state.sign("GET", &mut headers, "", path, no_credentials).unwrap();
        assert_eq!(headers["host"], "localhost");
        assert_eq!(headers.len(), 4);
    }

    // A host alone has no path
    for host in ["localhost", "localhost:9000", "a", "**", "u@h"] {
        for before in [HeaderMap::new(), hosted.clone()] {
            let mut headers = before.clone();
            assert!(!signable(&headers, host, time));
            let r = state.sign("GET", &mut headers, "", host, no_credentials);
            assert!(matches!(r, Err(SignError::Unsupported)));
            assert_eq!(headers, before);
        }
    }

    // Values that are no text
    let mut headers = HeaderMap::new();
    headers.append("x-bytes", HeaderValue::from_bytes(&[0xff]).unwrap());
    assert!(!signable(&headers, &url, time));
    let r = state.sign("GET", &mut headers, "", &url, no_credentials);
    assert!(matches!(r, Err(SignError::Unsupported)));
    assert_eq!(headers.len(), 1);
}

#[test]
fn queries_that_grow_too_long() {
    let (mut state, _, _) = get_test_s3_state();
    let time = secs(SIGNING_TIME);
    let with_query = |part: &str, times: usize| format!("http://h/?{}", part.repeat(times));

    for url in [
        with_query("!", 22000),
        with_query("%FF", 7282),
        with_query("\u{1d11e}", 5461),
        with_query("\u{e9}", 10921),
    ] {
        let mut headers = range_headers();
        assert!(!signable(&headers, &url, time));
        let r = state.sign("GET", &mut headers, "", &url, no_credentials);
        assert!(matches!(r, Err(SignError::Unsupported)));
        assert_eq!(headers, range_headers());
    }

    for url in [
        with_query("a", 65523),
        with_query("!", 21841),
        with_query("%41", 21841),
        with_query("%41", 8000),
        with_query("%21", 21841),
        with_query("%C3%A9", 10920),
        with_query("%FF", 7280),
        with_query("%", 21841),
        with_query("%2", 16380),
        with_query("%zz", 13104),
        with_query("\u{1d11e}", 5460),
        with_query("\u{e9}", 10920),
        with_query("&", 21841),
        with_query("=", 21841),
        with_query("!&", 10920),
        with_query("a&", 16380),
        with_query("a=b&", 8190),
        with_query("+", 21841),
        with_query("%e2\u{e9}%28%a9", 1680),
        format!("http://h/{}", "!".repeat(65525)),
        format!("http://h/{}?a", "!".repeat(65521)),
        format!("http://h?{}", "!".repeat(21841)),
    ] {
        let mut headers = range_headers();
        assert!(signable(&headers, &url, time));
        state
            .sign_with_identity("GET", &mut headers, &url, time)
            .unwrap();
        assert_eq!(headers.len(), 4);
    }

    // No URL is that long
    let mut headers = range_headers();
    let url = with_query("!", 65525);
    assert!(signable(&headers, &url, time));
    let r = state.sign("GET", &mut headers, "", &url, no_credentials);
    assert!(matches!(r, Err(SignError::Fault(SignFault::Signing(_)))));
}

#[test]
fn many_headers_are_signed_up_to_a_limit() {
    let (_, _, url) = get_test_s3_state();
    let time = secs(SIGNING_TIME);
    let mut headers = HeaderMap::new();
    for i in 0..6549 {
        let name: http::HeaderName = format!("x-{i}").parse().unwrap();
        headers.append(name, "1".parse().unwrap());
    }
    headers.append("x-0", "2".parse().unwrap());
    assert!(signable(&headers, &url, time));
    headers.append("x-more", "1".parse().unwrap());
    assert!(!signable(&headers, &url, time));
}

#[test]
fn malformed_addresses_fail_whatever_the_request() {
    let (mut state, _, _) = get_test_s3_state();
    let mut headers = HeaderMap::new();
    headers.append("x-bytes", HeaderValue::from_bytes(&[0xff]).unwrap());
    for url in ["/a b", "a b", "", "h/p", "http://"] {
        assert!(signable(&headers, url, secs(SIGNING_TIME)));
        let r = state.sign("GET", &mut headers, "", url, no_credentials);
        assert!(matches!(r, Err(SignError::Fault(SignFault::Signing(_)))));
        assert_eq!(headers.len(), 1);
    }
}

#[test]
fn credentials_come_before_the_request() {
    let (mut state, _, _) = get_test_s3_state();
    state.identity.install(credentials(Some(secs(3600))));
    for url in ["/a b", "/only/a/path", "localhost"] {
        let mut headers = HeaderMap::new();
        let r = state.sign("GET", &mut headers, "", url, no_credentials);
        assert!(matches!(r, Err(SignError::Credentials(e)) if e == "no credentials"));
    }
    // New credentials stay, though the request is not signed
    let mut headers = HeaderMap::new();
    let r = state.sign("GET", &mut headers, "", "localhost", || {
        Ok::<Credentials, String>(static_credentials("new-key", "new-secret"))
    });
    assert!(matches!(r, Err(SignError::Unsupported)));
    assert_eq!(state.identity.identity.credentials.access_key_id, "new-key");
}

#[test]
fn signing_twice_leaves_one_signature() {
    let (state, _, url) = get_test_s3_state();
    let mut headers = range_headers();
    state
        .sign_with_identity("GET", &mut headers, &url, secs(SIGNING_TIME))
        .unwrap();
    let names: Vec<String> = headers.keys().map(|k| k.to_string()).collect();
    state
        .sign_with_identity("GET", &mut headers, &url, secs(SIGNING_TIME + 86400))
        .unwrap();
    let again: Vec<String> = headers.keys().map(|k| k.to_string()).collect();
    assert_eq!(names, again);
    assert_eq!(headers.len(), 4);
    assert_eq!(headers["x-amz-date"], "20150831T123600Z");
    assert_eq!(headers["x-amz-content-sha256"], EMPTY_SHA256);
    let authorization = headers["authorization"].to_str().unwrap();
    assert!(authorization.contains("/20150831/"));
    assert_eq!(headers["range"], "bytes=5242900-");
}

#[test]
fn due_identity_is_replaced_before_signing() {
    let (mut state, resource, url) = get_test_s3_state();
    state.identity.install(credentials(Some(secs(3600))));
    let mut headers = range_headers();
    let r = state.sign("GET", &mut headers, &resource, &url, no_credentials);
    assert!(matches!(r, Err(SignError::Credentials(e)) if e == "no credentials"));
    assert_eq!(headers, range_headers());
    assert_eq!(state.identity.identity.expiration(), Some(secs(3600)));

    state
        .sign("GET", &mut headers, &resource, &url, || {
            Ok::<Credentials, String>(static_credentials("new-key", "new-secret"))
        })
        .unwrap();
    let authorization = headers["authorization"].to_str().unwrap();
    assert!(authorization.starts_with("AWS4-HMAC-SHA256 Credential=new-key/"));
    assert_eq!(state.identity.identity.expiration(), None);
}

#[test]
fn headers_are_applied_up_to_the_first_bad_one() {
    let pair = |name: &str, value: &str| (name.to_string(), value.to_string());

    let mut headers = range_headers();
    apply_headers(&mut headers, &vec![pair("X-One", "1"), pair("RANGE", "\tb\u{e9}")]).unwrap();
    assert_eq!(headers.len(), 2);
    assert_eq!(headers["x-one"], "1");
    assert_eq!(headers["range"].as_bytes(), "\tb\u{e9}".as_bytes());

    for name in ["", "a b", "a:b", "\u{e9}", "a\n"] {
        let mut headers = range_headers();
        let r = apply_headers(
            &mut headers,
            &vec![pair("x-one", "1"), pair(name, "\n"), pair("x-two", "2")],
        );
        assert!(matches!(r, Err(SignFault::HeaderName(_))));
        assert_eq!(headers.len(), 2);
        assert_eq!(headers["x-one"], "1");
    }

    for value in ["\n", "a\u{7f}", "\0", "\u{1f}"] {
        let mut headers = range_headers();
        let r = apply_headers(&mut headers, &vec![pair("x-one", "1"), pair("x-two", value)]);
        assert!(matches!(r, Err(SignFault::HeaderValue(_))));
        assert_eq!(headers.len(), 2);
    }

    let mut headers = range_headers();
    let every = "!#$%&'*+-.^_`|~0123456789azAZ";
    apply_headers(&mut headers, &vec![pair(every, "")]).unwrap();
    assert_eq!(headers["!#$%&'*+-.^_`|~0123456789azaz"], "");
    let long = "a".repeat(65535);
    apply_headers(&mut headers, &vec![pair(&long, "x")]).unwrap();
    let r = apply_headers(&mut headers, &vec![pair(&"a".repeat(65536), "x")]);
    assert!(matches!(r, Err(SignFault::HeaderName(_))));
}
