//! Setting up the tracing pipeline.

use vstd::prelude::*;
use vstd::string::StringExecFns;

verus! {

/// Why tracing was not set up, with what the tracing libraries say of it.
#[derive(Debug)]
pub enum TraceError {
    /// There is no exporter for spans.
    Exporter(String),
    /// The subscriber did not become the global one.
    Subscriber(String),
}

/// What is said of an error.
pub open spec fn trace_message_of(e: TraceError) -> Seq<char> {
    match e {
        TraceError::Exporter(cause) => "failed to create OTLP span exporter: "@ + cause@,
        TraceError::Subscriber(cause) => "failed to set global tracing subscriber: "@ + cause@,
    }
}

impl TraceError {
    /// What is said of the error.
    pub fn message(&self) -> (r: String)
        ensures
            r@ == trace_message_of(*self),
            match *self {
                TraceError::Exporter(cause) => r@ == "failed to create OTLP span exporter: "@
                    + cause@,
                TraceError::Subscriber(cause) => r@ == "failed to set global tracing subscriber: "@
                    + cause@,
            },
    {
        let mut text: String = String::new();
        match self {
            TraceError::Exporter(cause) => {
                text.append("failed to create OTLP span exporter: ");
                text.append(cause.as_str());
            },
            TraceError::Subscriber(cause) => {
                text.append("failed to set global tracing subscriber: ");
                text.append(cause.as_str());
            },
        }
        assert(text@ =~= trace_message_of(*self));
        text
    }
}

/// Sets up tracing for a service: makes an exporter for spans with
/// `build_exporter`, a provider of tracers for the service over that exporter
/// with `make_provider`, and the subscriber of the provider's tracer of that
/// name the global one with `install`.
///
/// The provider has to be kept for as long as spans are recorded. Where a step
/// fails, no later one is taken.
pub fn setup_tracing<X, P, B, M, I>(
    service_name: String,
    build_exporter: B,
    make_provider: M,
    install: I,
) -> (r: Result<P, TraceError>) where
    B: FnOnce() -> Result<X, String>,
    M: FnOnce(X, String) -> P,
    I: FnOnce(&P, String) -> Result<(), String>,

    requires
        build_exporter.requires(()),
        forall|exporter: X| #[trigger]
            build_exporter.ensures((), Ok::<X, String>(exporter)) ==> make_provider.requires(
                (exporter, service_name),
            ),
        forall|exporter: X, provider: P|
            build_exporter.ensures((), Ok::<X, String>(exporter)) && #[trigger] make_provider.ensures(
                (exporter, service_name),
                provider,
            ) ==> install.requires((&provider, service_name)),
    ensures
        exists|built: Result<X, String>| #[trigger]
            build_exporter.ensures((), built) && match built {
                Err(cause) => r == Err::<P, TraceError>(TraceError::Exporter(cause)),
                Ok(exporter) => exists|provider: P, installed: Result<(), String>|
                    {
                        &&& #[trigger] make_provider.ensures((exporter, service_name), provider)
                        &&& #[trigger] install.ensures((&provider, service_name), installed)
                        &&& match installed {
                            Ok(()) => r == Ok::<P, TraceError>(provider),
                            Err(cause) => r == Err::<P, TraceError>(
                                TraceError::Subscriber(cause),
                            ),
                        }
                    },
            },
{
    let exporter: X = match build_exporter() {
        Ok(exporter) => exporter,
        Err(cause) => {
            return Err(TraceError::Exporter(cause));
        },
    };
    let provider: P = make_provider(exporter, service_name.clone());
    match install(&provider, service_name) {
        Ok(()) => Ok(provider),
        Err(cause) => Err(TraceError::Subscriber(cause)),
    }
}

/// What is said of a failed set-up ends in what the tracing libraries said of it,
/// behind the step that failed.
pub proof fn law_trace_messages_tell_step_and_cause(cause: String)
    ensures
        trace_message_of(TraceError::Exporter(cause)) == "failed to create OTLP span exporter: "@
            + cause@,
        trace_message_of(TraceError::Subscriber(cause))
            == "failed to set global tracing subscriber: "@ + cause@,
{
}

} // verus!
