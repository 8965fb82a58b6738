//! Deferred sessions: with a recording session to see what goes where, and with the
//! TLS sessions of `quinn-proto` end to end.

use std::any::Any;
use std::sync::{Arc, Mutex};

use quinn_deferred_config::config::supports_version;
use quinn_deferred_config::session::protocol_violation;
use quinn_deferred_config::{
    ClientHelloView, CryptoSession, DeferredServerConfig, DeferredSession, SessionState,
};
use quinn_proto::crypto::rustls::{QuicClientConfig, QuicServerConfig};
use quinn_proto::crypto::{
    ClientConfig, ExportKeyingMaterialError, HeaderKey, KeyPair, Keys, PacketKey, ServerConfig,
    Session,
};
use quinn_proto::transport_parameters::TransportParameters;
use quinn_proto::{ConnectionId, Side, TransportError, TransportErrorCode};
use rustls::pki_types::{CertificateDer, PrivateKeyDer, PrivatePkcs8KeyDer};
use rustls::ServerConfig as RustlsServerConfig;

type Selector = Box<dyn Fn(&ClientHelloView<'_>) -> Arc<RustlsServerConfig> + Send + Sync>;

struct HostCert {
    cert_der: CertificateDer<'static>,
    key_der: PrivatePkcs8KeyDer<'static>,
}

fn gen_host(name: &'static str) -> HostCert {
    let cert = rcgen::generate_simple_self_signed(vec![name.to_string()]).unwrap();
    let cert_der = CertificateDer::from(cert.cert.der().to_vec());
    let key_der = PrivatePkcs8KeyDer::from(cert.signing_key.serialize_der());
    HostCert { cert_der, key_der }
}

fn build_rustls_server(host: &HostCert) -> Arc<RustlsServerConfig> {
    let mut cfg = RustlsServerConfig::builder()
        .with_no_client_auth()
        .with_single_cert(
            vec![host.cert_der.clone()],
            PrivateKeyDer::Pkcs8(host.key_der.clone_key()),
        )
        .unwrap();
    cfg.alpn_protocols = vec![b"h3".to_vec(), b"hq-29".to_vec()];
    Arc::new(cfg)
}

/// A configuration whose provider lacks the initial cipher suite of QUIC.
fn build_unusable_server(host: &HostCert) -> Arc<RustlsServerConfig> {
    let mut provider = rustls::crypto::ring::default_provider();
    provider.cipher_suites =
        vec![rustls::crypto::ring::cipher_suite::TLS13_CHACHA20_POLY1305_SHA256];
    let cfg = RustlsServerConfig::builder_with_provider(Arc::new(provider))
        .with_protocol_versions(&[&rustls::version::TLS13])
        .unwrap()
        .with_no_client_auth()
        .with_single_cert(
            vec![host.cert_der.clone()],
            PrivateKeyDer::Pkcs8(host.key_der.clone_key()),
        )
        .unwrap();
    Arc::new(cfg)
}

fn build_client(roots: &[&CertificateDer<'static>], server_name: &str) -> Box<dyn Session> {
    let mut store = rustls::RootCertStore::empty();
    for root in roots {
        store.add((*root).clone()).unwrap();
    }
    let mut crypto = rustls::ClientConfig::builder()
        .with_root_certificates(store)
        .with_no_client_auth();
    crypto.alpn_protocols = vec![b"h3".to_vec()];
    Arc::new(QuicClientConfig::try_from(crypto).unwrap())
        .start_session(1, server_name, &some_params())
        .unwrap()
}

/// A TLS session of `quinn-proto`.
struct Tls(Box<dyn Session>);

impl CryptoSession for Tls {
    type HandshakeData = Box<dyn Any>;
    type PeerIdentity = Box<dyn Any>;
    type EarlyKeys = (Box<dyn HeaderKey>, Box<dyn PacketKey>);
    type UpdateKeys = KeyPair<Box<dyn PacketKey>>;

    fn start(config: Arc<QuicServerConfig>, version: u32, params: &TransportParameters) -> Self {
        Tls(config.start_session(version, params))
    }

    fn initial_keys(&self, dst_cid: &ConnectionId, side: Side) -> Keys {
        self.0.initial_keys(dst_cid, side)
    }

    fn handshake_data(&self) -> Option<Self::HandshakeData> {
        self.0.handshake_data()
    }

    fn peer_identity(&self) -> Option<Self::PeerIdentity> {
        self.0.peer_identity()
    }

    fn early_crypto(&self) -> Option<Self::EarlyKeys> {
        self.0.early_crypto()
    }

    fn early_data_accepted(&self) -> Option<bool> {
        self.0.early_data_accepted()
    }

    fn is_handshaking(&self) -> bool {
        self.0.is_handshaking()
    }

    fn read_handshake(&mut self, buf: &[u8]) -> Result<bool, TransportError> {
        self.0.read_handshake(buf)
    }

    fn transport_parameters(&self) -> Result<Option<TransportParameters>, TransportError> {
        self.0.transport_parameters()
    }

    fn write_handshake(&mut self, buf: &mut Vec<u8>) -> Option<Keys> {
        self.0.write_handshake(buf)
    }

    fn next_1rtt_keys(&mut self) -> Option<Self::UpdateKeys> {
        self.0.next_1rtt_keys()
    }

    fn is_valid_retry(&self, orig_dst_cid: &ConnectionId, header: &[u8], payload: &[u8]) -> bool {
        self.0.is_valid_retry(orig_dst_cid, header, payload)
    }

    fn export_keying_material(
        &self,
        output: &mut [u8],
        label: &[u8],
        context: &[u8],
    ) -> Result<(), ExportKeyingMaterialError> {
        self.0.export_keying_material(output, label, context)
    }
}

/// A session that records what it reads and answers what no other part would.
struct Recorder {
    config: Arc<QuicServerConfig>,
    version: u32,
    params: TransportParameters,
    read: Vec<Vec<u8>>,
}

impl CryptoSession for Recorder {
    type HandshakeData = usize;
    type PeerIdentity = usize;
    type EarlyKeys = usize;
    type UpdateKeys = usize;

    fn start(config: Arc<QuicServerConfig>, version: u32, params: &TransportParameters) -> Self {
        Recorder { config, version, params: *params, read: Vec::new() }
    }

    fn initial_keys(&self, dst_cid: &ConnectionId, _side: Side) -> Keys {
        match self.config.initial_keys(self.version, dst_cid) {
            Ok(keys) => keys,
            Err(_) => panic!("version"),
        }
    }

    fn handshake_data(&self) -> Option<usize> {
        Some(self.read.len())
    }

    fn peer_identity(&self) -> Option<usize> {
        Some(10 + self.read.len())
    }

    fn early_crypto(&self) -> Option<usize> {
        Some(20 + self.read.len())
    }

    fn early_data_accepted(&self) -> Option<bool> {
        Some(true)
    }

    fn is_handshaking(&self) -> bool {
        false
    }

    fn read_handshake(&mut self, buf: &[u8]) -> Result<bool, TransportError> {
        self.read.push(buf.to_vec());
        if buf == b"bad" {
            return Err(TransportErrorCode::INTERNAL_ERROR.into());
        }
        Ok(self.read.len() == 1)
    }

    fn transport_parameters(&self) -> Result<Option<TransportParameters>, TransportError> {
        Ok(Some(self.params))
    }

    fn write_handshake(&mut self, buf: &mut Vec<u8>) -> Option<Keys> {
        buf.extend_from_slice(b"written");
        self.read.clear();
        None
    }

    fn next_1rtt_keys(&mut self) -> Option<usize> {
        Some(30)
    }

    fn is_valid_retry(&self, _cid: &ConnectionId, header: &[u8], payload: &[u8]) -> bool {
        header == b"header" && payload == b"payload"
    }

    fn export_keying_material(
        &self,
        output: &mut [u8],
        label: &[u8],
        context: &[u8],
    ) -> Result<(), ExportKeyingMaterialError> {
        output[0] = label[0];
        output[1] = context[0];
        Ok(())
    }
}

/// Transport parameters that are not the default ones: `initial_max_data` is 5.
fn some_params() -> TransportParameters {
    let mut bytes: &[u8] = &[4, 1, 5];
    TransportParameters::read(Side::Server, &mut bytes).unwrap()
}

fn install_provider() {
    rustls::crypto::ring::default_provider()
        .install_default()
        .ok();
}

/// The handshake bytes that a client starts with, SNI and the protocol `h3` in them.
fn client_hello(server_name: &str) -> Vec<u8> {
    let host = gen_host("host-a.test");
    let mut client = build_client(&[&host.cert_der], server_name);
    let mut hello = Vec::new();
    client.write_handshake(&mut hello);
    hello
}

/// A session that records what the selector was shown, and selects `chosen`.
fn recording(
    default: Arc<RustlsServerConfig>,
    chosen: Arc<RustlsServerConfig>,
) -> (
    DeferredSession<Recorder, Selector>,
    Arc<Mutex<Vec<(Option<String>, Vec<Vec<u8>>, Vec<u8>)>>>,
) {
    let seen = Arc::new(Mutex::new(Vec::new()));
    let log = seen.clone();
    let selector: Selector = Box::new(move |hello: &ClientHelloView<'_>| {
        log.lock().unwrap().push((
            hello.server_name.map(|name| name.to_string()),
            hello.alpn.iter().map(|name| name.to_vec()).collect(),
            hello.raw.to_vec(),
        ));
        chosen.clone()
    });
    let config = Arc::new(DeferredServerConfig::new(default, Arc::new(selector)).unwrap());
    (config.start_session::<Recorder>(1, &some_params()), seen)
}

/// Runs a handshake between a client that asks for `target_sni` and a deferred
/// session, in pieces of `piece` bytes towards the server. Gives the leaf
/// certificate that the client got, and those of the two hosts.
fn run_dispatch(target_sni: &'static str, piece: usize) -> (Vec<u8>, Vec<u8>, Vec<u8>) {
    let host_a = gen_host("host-a.test");
    let host_b = gen_host("host-b.test");

    let cfg_a = build_rustls_server(&host_a);
    let cfg_b = build_rustls_server(&host_b);

    let cfg_a_for_selector = cfg_a.clone();
    let cfg_b_for_selector = cfg_b.clone();
    let selector: Selector = Box::new(move |hello: &ClientHelloView<'_>| match hello.server_name {
        Some("host-a.test") => cfg_a_for_selector.clone(),
        Some("host-b.test") => cfg_b_for_selector.clone(),
        _ => cfg_a_for_selector.clone(),
    });

    // Default is host-a; the selector must steer to host-b when SNI=host-b.
    let config = Arc::new(DeferredServerConfig::new(cfg_a.clone(), Arc::new(selector)).unwrap());
    let mut server = config.start_session::<Tls>(1, &some_params());
    let mut client = build_client(&[&host_a.cert_der, &host_b.cert_der], target_sni);

    let mut rounds = 0;
    while client.is_handshaking() || server.is_handshaking() {
        rounds += 1;
        assert!(rounds < 20);
        let mut to_server = Vec::new();
        client.write_handshake(&mut to_server);
        for part in to_server.chunks(piece) {
            server.read_handshake(part).unwrap();
        }
        let mut to_client = Vec::new();
        server.write_handshake(&mut to_client);
        if !to_client.is_empty() {
            client.read_handshake(&to_client).unwrap();
        }
    }

    let peer = client
        .peer_identity()
        .expect("peer identity present")
        .downcast::<Vec<CertificateDer<'static>>>()
        .expect("peer identity is cert chain");
    assert!(server.handshake_data().is_some());
    assert!(matches!(server.transport_parameters(), Ok(Some(_))));
    let mut ours = [0u8; 16];
    let mut theirs = [0u8; 16];
    server.export_keying_material(&mut ours, b"label", b"context").unwrap();
    client.export_keying_material(&mut theirs, b"label", b"context").unwrap();
    assert_eq!(ours, theirs);
    (peer[0].to_vec(), host_a.cert_der.to_vec(), host_b.cert_der.to_vec())
}

#[test]
fn sni_steers_to_selected_config() {
    install_provider();
    let (host_b_leaf, _, host_b_cert) = run_dispatch("host-b.test", 100_000);
    assert!(!host_b_leaf.is_empty());
    assert!(
        host_b_leaf[0] == 0x30,
        "leaf should start with DER SEQUENCE tag"
    );
    assert_eq!(host_b_leaf, host_b_cert);
}

#[test]
fn sni_default_path_also_works() {
    install_provider();
    let (host_a_leaf, host_a_cert, _) = run_dispatch("host-a.test", 100_000);
    assert!(!host_a_leaf.is_empty());
    assert!(host_a_leaf[0] == 0x30);
    assert_eq!(host_a_leaf, host_a_cert);
}

#[test]
fn handshake_in_pieces_ends_the_same() {
    install_provider();
    let (leaf, _, host_b_cert) = run_dispatch("host-b.test", 7);
    assert_eq!(leaf, host_b_cert);
}

#[test]
fn selector_sees_the_hello_once_it_is_whole() {
    install_provider();
    let host = gen_host("host-a.test");
    let (mut session, seen) = recording(build_rustls_server(&host), build_rustls_server(&host));
    let hello = client_hello("host-b.test");
    for byte in &hello[..hello.len() - 1] {
        assert_eq!(session.read_handshake(&[*byte]), Ok(false));
        assert!(session.is_handshaking());
    }
    assert!(seen.lock().unwrap().is_empty());
    // The last byte, and one more that belongs to what follows.
    assert_eq!(session.read_handshake(&[hello[hello.len() - 1], 0x77]), Ok(true));
    let mut raw = hello.clone();
    raw.push(0x77);
    assert_eq!(
        *seen.lock().unwrap(),
        vec![(Some("host-b.test".to_string()), vec![b"h3".to_vec()], raw.clone())]
    );
    match &session.state {
        SessionState::Active(active) => {
            assert_eq!(active.read, vec![raw]);
            assert_eq!(active.version, 1);
            assert_eq!(active.params, some_params());
        }
        SessionState::Buffering { .. } => panic!("expected Active"),
    }
    // From here on the bytes go through, and the selector is not asked again.
    assert_eq!(session.read_handshake(b"more"), Ok(false));
    let error = session.read_handshake(b"bad").unwrap_err();
    assert_eq!(error.code, TransportErrorCode::INTERNAL_ERROR);
    assert_eq!(seen.lock().unwrap().len(), 1);
    match &session.state {
        SessionState::Active(active) => {
            assert_eq!(active.read[1], b"more".to_vec());
            assert_eq!(active.read[2], b"bad".to_vec());
        }
        SessionState::Buffering { .. } => panic!("expected Active"),
    }
}

#[test]
fn chosen_config_is_the_one_that_is_started() {
    install_provider();
    let host = gen_host("host-a.test");
    let chosen = build_rustls_server(&host);
    let (mut session, _) = recording(build_rustls_server(&host), chosen.clone());
    let before = Arc::strong_count(&chosen);
    session.read_handshake(&client_hello("host-a.test")).unwrap();
    assert_eq!(Arc::strong_count(&chosen), before + 1);
}

#[test]
fn malformed_hello_is_a_violation_for_good() {
    install_provider();
    let host = gen_host("host-a.test");
    let (mut session, seen) = recording(build_rustls_server(&host), build_rustls_server(&host));
    let error = session.read_handshake(&[2, 0, 0, 0]).unwrap_err();
    assert_eq!(error, protocol_violation("first handshake message is not ClientHello"));
    let again = session.read_handshake(&client_hello("host-a.test")).unwrap_err();
    assert_eq!(again, error);
    assert!(seen.lock().unwrap().is_empty());
    assert!(session.is_handshaking());
}

#[test]
fn unusable_choice_is_a_violation_and_can_be_repeated() {
    install_provider();
    let host = gen_host("host-a.test");
    let (mut session, seen) = recording(build_rustls_server(&host), build_unusable_server(&host));
    let hello = client_hello("host-a.test");
    let error = session.read_handshake(&hello).unwrap_err();
    assert_eq!(
        error,
        protocol_violation("selected ServerConfig lacks a QUIC-compatible TLS 1.3 suite")
    );
    match &session.state {
        SessionState::Buffering { buffer, .. } => assert_eq!(buffer, &hello),
        SessionState::Active(_) => panic!("expected Buffering"),
    }
    assert_eq!(session.read_handshake(&[]).unwrap_err(), error);
    assert_eq!(seen.lock().unwrap().len(), 2);
}

#[test]
fn adopt_takes_the_result_of_the_conversion() {
    install_provider();
    let host = gen_host("host-a.test");
    let usable = build_rustls_server(&host);
    let (mut session, _) = recording(usable.clone(), usable.clone());
    assert_eq!(session.read_handshake(&[1, 0, 0]), Ok(false));
    let refused = QuicServerConfig::try_from(build_unusable_server(&host));
    assert!(refused.is_err());
    assert!(session.adopt(refused).is_err());
    assert!(matches!(&session.state, SessionState::Buffering { buffer, .. } if buffer == &[1, 0, 0]));
    assert_eq!(session.adopt(QuicServerConfig::try_from(usable)), Ok(true));
    match &session.state {
        SessionState::Active(active) => assert_eq!(active.read, vec![vec![1, 0, 0]]),
        SessionState::Buffering { .. } => panic!("expected Active"),
    }
}

#[test]
fn protocol_violation_has_the_code_and_the_reason() {
    let error = protocol_violation("why");
    assert_eq!(error.code, TransportErrorCode::PROTOCOL_VIOLATION);
    assert_eq!(error.frame, None);
    assert_eq!(error.reason, "why");
}

#[test]
fn unusable_default_is_refused() {
    install_provider();
    let host = gen_host("host-a.test");
    let usable = build_rustls_server(&host);
    let selector: Selector = Box::new(move |_: &ClientHelloView<'_>| usable.clone());
    assert!(DeferredServerConfig::new(build_unusable_server(&host), Arc::new(selector)).is_err());
}

#[test]
fn buffering_answers_are_fixed() {
    install_provider();
    let host = gen_host("host-a.test");
    let (mut session, _) = recording(build_rustls_server(&host), build_rustls_server(&host));
    assert_eq!(session.handshake_data(), None);
    assert_eq!(session.peer_identity(), None);
    assert_eq!(session.early_crypto(), None);
    assert_eq!(session.early_data_accepted(), None);
    assert!(session.is_handshaking());
    assert!(matches!(session.transport_parameters(), Ok(None)));
    let mut out = vec![1, 2];
    assert!(session.write_handshake(&mut out).is_none());
    assert_eq!(out, vec![1, 2]);
    assert_eq!(session.next_1rtt_keys(), None);
    let mut material = [5u8, 6];
    assert_eq!(
        session.export_keying_material(&mut material, b"l", b"c"),
        Err(ExportKeyingMaterialError)
    );
    assert_eq!(material, [5, 6]);
    // These two are answered by the default session.
    let cid = ConnectionId::new(&[1, 2, 3, 4, 5, 6, 7, 8]);
    assert!(session.is_valid_retry(&cid, b"header", b"payload"));
    assert!(!session.is_valid_retry(&cid, b"payload", b"header"));
    assert_eq!(session.initial_keys(&cid, Side::Server).packet.local.tag_len(), 16);
}

#[test]
fn active_answers_are_those_of_the_session() {
    install_provider();
    let host = gen_host("host-a.test");
    let (mut session, _) = recording(build_rustls_server(&host), build_rustls_server(&host));
    session.read_handshake(&client_hello("host-a.test")).unwrap();
    assert_eq!(session.handshake_data(), Some(1));
    assert_eq!(session.peer_identity(), Some(11));
    assert_eq!(session.early_crypto(), Some(21));
    assert_eq!(session.early_data_accepted(), Some(true));
    assert!(!session.is_handshaking());
    assert!(matches!(session.transport_parameters(), Ok(Some(_))));
    assert_eq!(session.next_1rtt_keys(), Some(30));
    let mut material = [5u8, 6];
    assert_eq!(session.export_keying_material(&mut material, b"l", b"c"), Ok(()));
    assert_eq!(material, [b'l', b'c']);
    let cid = ConnectionId::new(&[1, 2, 3, 4, 5, 6, 7, 8]);
    assert!(session.is_valid_retry(&cid, b"header", b"payload"));
    assert_eq!(session.initial_keys(&cid, Side::Server).packet.local.tag_len(), 16);
    let mut out = vec![1, 2];
    assert!(session.write_handshake(&mut out).is_none());
    assert_eq!(out, b"\x01\x02written".to_vec());
    assert_eq!(session.handshake_data(), Some(0));
}

#[test]
fn default_config_serves_initial_keys_and_retry_tags() {
    install_provider();
    let host = gen_host("host-a.test");
    let default = build_rustls_server(&host);
    let chosen = default.clone();
    let selector: Selector = Box::new(move |_: &ClientHelloView<'_>| chosen.clone());
    let config = DeferredServerConfig::new(default.clone(), Arc::new(selector)).unwrap();
    let quic = QuicServerConfig::try_from(default).unwrap();
    let cid = ConnectionId::new(&[1, 2, 3, 4, 5, 6, 7, 8]);
    for version in [0, 1, 2, 0xff00_001c, 0xff00_001d, 0xff00_0020, 0xff00_0021, 0xff00_0022, 0xff00_0023] {
        assert_eq!(config.initial_keys(version, &cid).is_ok(), supports_version(version));
        assert_eq!(quic.initial_keys(version, &cid).is_ok(), supports_version(version));
        if supports_version(version) {
            assert_eq!(
                config.retry_tag(version, &cid[..], b"packet"),
                quic.retry_tag(version, &cid, b"packet")
            );
        }
    }
    assert_ne!(config.retry_tag(1, &cid[..], b"packet"), config.retry_tag(1, &cid[..], b"packed"));
}
