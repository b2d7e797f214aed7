use std::cell::RefCell;

use nydus_storage::text::{join, push_decimal};
use nydus_storage::trace::{setup_tracing, TraceError};

#[test]
fn tracing_is_set_up_in_order() {
    let log: RefCell<Vec<String>> = RefCell::new(Vec::new());
    let provider = setup_tracing(
        "svc".to_string(),
        || {
            log.borrow_mut().push("exporter".to_string());
            Ok(1u8)
        },
        |exporter: u8, name: String| {
            log.borrow_mut().push(format!("provider {exporter} {name}"));
            (exporter, name)
        },
        |provider: &(u8, String), name: String| {
            log.borrow_mut().push(format!("install {} {name}", provider.0));
            Ok(())
        },
    )
    .unwrap();
    assert_eq!(provider, (1, "svc".to_string()));
    assert_eq!(
        *log.borrow(),
        ["exporter", "provider 1 svc", "install 1 svc"]
    );
}

#[test]
fn failed_exporter_ends_the_setup() {
    let r: Result<u8, TraceError> = setup_tracing(
        "svc".to_string(),
        || Err::<u8, String>("no client".to_string()),
        |_: u8, _: String| panic!("not called"),
        |_: &u8, _: String| panic!("not called"),
    );
    let e = r.unwrap_err();
    assert!(matches!(&e, TraceError::Exporter(cause) if cause == "no client"));
    assert_eq!(e.message(), "failed to create OTLP span exporter: no client");
}

#[test]
fn failed_subscriber_ends_the_setup() {
    let r: Result<u8, TraceError> = setup_tracing(
        "svc".to_string(),
        || Ok::<u8, String>(1),
        |exporter: u8, _: String| exporter,
        |_: &u8, _: String| Err("there is one".to_string()),
    );
    let e = r.unwrap_err();
    assert!(matches!(&e, TraceError::Subscriber(cause) if cause == "there is one"));
    assert_eq!(
        e.message(),
        "failed to set global tracing subscriber: there is one"
    );
}

#[test]
fn numbers_and_lists_as_text() {
    let mut text = String::from("n=");
    push_decimal(&mut text, 0);
    push_decimal(&mut text, 120);
    push_decimal(&mut text, u64::MAX);
    assert_eq!(text, "n=012018446744073709551615");
    assert_eq!(join(&[], "&"), "");
    assert_eq!(join(&["a"], "&"), "a");
    assert_eq!(join(&["a", "", "b"], "&"), "a&&b");
}
