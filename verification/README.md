# nydus_storage

Verified parts of a storage backend for container images:

- the chunk map, a file of fixed layout that records which chunks of a blob are
  ready, shared by any number of threads and processes (`persist_map`, `header`,
  `bitmap`, `byte_order`, `handshake`, `messages`; laws in `map_laws` and
  `sharing`);
- the request side of an S3 backend: addresses, credentials that are refreshed
  before they expire, and request signatures (`s3`, `identity`, `signing`,
  `sigv4`, `request_url`, `headers`, `text`; laws in `signing_laws`);
- the set-up of tracing (`trace`).

`src/` is the library, `tests/` its tests. `app/` puts the library on a real
machine: files, memory mappings, the AWS credential chain and OpenTelemetry.

What Verus believes without proof stands behind functions marked
`#[verifier::external_body]`. The doc comment of each names the outside function
and says what is claimed of it.
