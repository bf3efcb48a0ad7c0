# cargo-overlay-registry

A read-write overlay for cargo registries. A writable local layer lies on top of a read-only
upstream registry such as crates.io: publishes go to the local layer, downloads are served from it
first, and the index that cargo sees is the upstream's with the local lines over it. A forward
proxy intercepts the connections to the upstream's hosts, so that cargo needs no other
configuration than the proxy and its CA certificate.

## Layout

- `src/` is the library, verified with Verus.
  - `types`: publish metadata, index entries, and what keeps crates.io from taking a crate.
  - `endpoints`: the body of a publish request, and the answers of the endpoints.
  - `registry`: errors; where crates and index files stand (`publish`, `local`); index files and
    how the local lines lie over the upstream's (`index`); requests that go on (`proxy`); the layers
    as a whole, and what clients see of a publish (`overlay`).
  - `http_proxy`: which connections are intercepted, what is read from them and written to them,
    and how requests for absolute URLs go on.
  - `state`, `tls`: settings, and certificates for intercepted hosts and for the server itself.
  - `cli`, `dry_run`: what follows from the arguments of the two programs.
  - `response`, `text`: requests and responses as plain values, and texts.
  - `outside`: what `sha2`, `url`, `rcgen` and std are taken to do.
- `app/` is the program around the library: sockets, files, TLS, JSON and the command line.
- `tests/` runs the library on concrete values.

## Programs

`cargo-overlay-registry` starts the server; under the name `cargo-publish-dry-run` it runs
`cargo publish` against a temporary overlay and cleans up.

```bash
cargo-overlay-registry --ca-cert-out ./ca-cert.pem

export CARGO_HTTP_PROXY="http://127.0.0.1:8080"
export CARGO_HTTP_CAINFO="./ca-cert.pem"
export CARGO_REGISTRY_TOKEN=dummy
cargo publish --allow-dirty
```

## Storage

```
{registry-path}/
├── crates/{name}/{version}.crate    # Published .crate files
└── index/{path}/{name}              # Index entries (JSON lines)
```
