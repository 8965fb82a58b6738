# quinn-deferred-config

ClientHello-based deferred choice of a `rustls::ServerConfig` for Quinn, verified
with Verus.

A QUIC server that serves several hosts on one socket has to choose its TLS
configuration by what the client asks for. The library buffers the CRYPTO bytes of a
connection until the TLS `ClientHello` is whole, reads the server name (SNI) and the
application protocols (ALPN) out of it, lets a selector choose, and replays the
buffered bytes into a session from the chosen configuration.

- `src/grammar.rs` says what a buffer of handshake bytes means, error by error;
  `src/parse.rs` computes exactly that.
- `src/encoding.rs` and `src/laws.rs` hold the laws: what a client writes is read
  back, nothing is decided before the message is whole, and a decision is final.
- `src/config.rs` and `src/session.rs` hold the deferred configuration and session.
  They are generic over the session of the chosen configuration, and say for each
  operation who answers it and what is handed on.
- `src/outside.rs` lists what is taken on trust about `std`, `quinn-proto` and
  `rustls`.
- `app/` puts the traits of `quinn-proto` on top.

```rust
let selector: Selector = Arc::new(move |hello: &ClientHelloView<'_>| {
    match hello.server_name {
        Some("host-a.example") => host_a_config.clone(),
        Some("host-b.example") => host_b_config.clone(),
        _ => fallback.clone(),
    }
});
let deferred = DeferredServerConfig::new(default_config, selector)?;
```

The chosen configuration must support TLS 1.3 for QUIC. The default one is needed
all the same: it gives the initial keys and handles retries before the choice is
made.
