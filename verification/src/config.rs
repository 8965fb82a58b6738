//! A server configuration that commits to its TLS part late.

use crate::outside;
use crate::outside::{quic_initial_keys, quic_retry_tag};
use crate::session;
use crate::session::{ClientHelloView, CryptoSession, DeferredSession, SessionState};
use quinn_proto::crypto::rustls::{NoInitialCipherSuite, QuicServerConfig};
use quinn_proto::crypto::{Keys, UnsupportedVersion};
use quinn_proto::transport_parameters::TransportParameters;
use quinn_proto::ConnectionId;
use std::sync::Arc;
use vstd::prelude::*;

verus! {

/// A server configuration that defers committing to a final `rustls` configuration
/// until the `ClientHello` is available. Until then `default_quic` serves.
pub struct DeferredServerConfig<F> {
    pub default_quic: Arc<QuicServerConfig>,
    pub selector: Arc<F>,
}

/// Whether `keys` is what `config` gives as initial keys.
pub closed spec fn gives_initial_keys(
    config: QuicServerConfig,
    version: u32,
    dst_cid: ConnectionId,
    keys: Result<Keys, UnsupportedVersion>,
) -> bool {
    call_ensures(quic_initial_keys, (&config, version, &dst_cid), keys)
}

/// Whether TLS can be run for a QUIC version. Nothing but
/// [`DeferredServerConfig::initial_keys`] may be asked about any other.
pub fn supports_version(version: u32) -> (supported: bool)
    ensures
        supported == outside::is_supported_version(version),
        supported == (version == 1 || 0xff00_001d <= version <= 0xff00_0022),
{
    version == 1 || (0xff00_001d <= version && version <= 0xff00_0022)
}

impl<F: Fn(&ClientHelloView<'_>) -> Arc<rustls::ServerConfig>> DeferredServerConfig<F> {
    /// A configuration that falls back on `default_rustls` until `selector` has
    /// chosen. Fails where the default cannot be converted for QUIC.
    pub fn new(default_rustls: Arc<rustls::ServerConfig>, selector: Arc<F>) -> (result: Result<
        Self,
        NoInitialCipherSuite,
    >)
        ensures
            exists|converted: Result<QuicServerConfig, NoInitialCipherSuite>|
                {
                    &&& #[trigger] session::converts(default_rustls, converted)
                    &&& call_ensures(
                        <QuicServerConfig as TryFrom<Arc<rustls::ServerConfig>>>::try_from,
                        (default_rustls,),
                        converted,
                    )
                    &&& match converted {
                        Ok(quic) => {
                            &&& result matches Ok(config)
                            &&& *config.default_quic == quic
                            &&& config.selector == selector
                        },
                        Err(error) => result == Err::<Self, NoInitialCipherSuite>(error),
                    }
                },
    {
        let converted = QuicServerConfig::try_from(default_rustls);
        assert(session::converts(default_rustls, converted));
        match converted {
            Ok(quic) => Ok(Self { default_quic: Arc::new(quic), selector }),
            Err(error) => Err(error),
        }
    }

    /// The initial keys, as the default configuration gives them.
    pub fn initial_keys(&self, version: u32, dst_cid: &ConnectionId) -> (keys: Result<
        Keys,
        UnsupportedVersion,
    >)
        ensures
            gives_initial_keys(*self.default_quic, version, *dst_cid, keys),
            keys is Ok <==> outside::is_supported_version(version),
            keys is Ok <==> (version == 1 || 0xff00_001d <= version <= 0xff00_0022),
    {
        quic_initial_keys(&self.default_quic, version, dst_cid)
    }

    /// The integrity tag of a retry packet, as the default configuration gives it.
    /// The original destination connection identifier is given by its bytes, 20 at
    /// most.
    pub fn retry_tag(&self, version: u32, orig_dst_cid: &[u8], packet: &[u8]) -> (tag: [u8; 16])
        requires
            outside::is_supported_version(version),
            orig_dst_cid@.len() <= 20,
        ensures
            tag@ == outside::retry_integrity_tag(version, orig_dst_cid@, packet@),
    {
        quic_retry_tag(&self.default_quic, version, orig_dst_cid, packet)
    }

    /// Starts a session that is to choose its configuration: it has received nothing
    /// yet, and a session from the default configuration stands in until it has
    /// chosen.
    pub fn start_session<S: CryptoSession>(
        self: Arc<Self>,
        version: u32,
        params: &TransportParameters,
    ) -> (deferred: DeferredSession<S, F>)
        requires
            outside::is_supported_version(version),
            S::accepts(*self.default_quic),
            session::selects_for::<S, F>(*self.selector),
        ensures
            deferred.well_formed(),
            deferred.selector == self.selector,
            deferred.version == version,
            deferred.params == *params,
            deferred.state matches SessionState::Buffering { buffer, default_session }
                && buffer@.len() == 0 && call_ensures(
                S::start,
                (self.default_quic, version, params),
                default_session,
            ),
    {
        let default_session = S::start(self.default_quic.clone(), version, params);
        DeferredSession {
            state: SessionState::Buffering { buffer: Vec::new(), default_session },
            selector: self.selector.clone(),
            version,
            params: *params,
        }
    }
}

/// The initial keys come from the default configuration, for the very version and
/// connection identifier that were asked about.
pub(crate) proof fn law_initial_keys_come_from_default<
    F: Fn(&ClientHelloView<'_>) -> Arc<rustls::ServerConfig>,
>(
    config: &DeferredServerConfig<F>,
    version: u32,
    dst_cid: &ConnectionId,
    keys: Result<Keys, UnsupportedVersion>,
)
    requires
        call_ensures(DeferredServerConfig::<F>::initial_keys, (config, version, dst_cid), keys),
    ensures
        call_ensures(quic_initial_keys, (&*config.default_quic, version, dst_cid), keys),
{
}

/// Initial keys are refused for exactly the versions that cannot be served, whatever the
/// configuration and the connection identifier.
pub proof fn law_initial_keys_by_version<
    F: Fn(&ClientHelloView<'_>) -> Arc<rustls::ServerConfig>,
>(
    config: &DeferredServerConfig<F>,
    version: u32,
    dst_cid: &ConnectionId,
    keys: Result<Keys, UnsupportedVersion>,
    supported: bool,
)
    requires
        call_ensures(DeferredServerConfig::<F>::initial_keys, (config, version, dst_cid), keys),
        call_ensures(supports_version, (version,), supported),
    ensures
        keys is Ok <==> (version == 1 || 0xff00_001d <= version <= 0xff00_0022),
        keys is Ok <==> supported,
{
}

/// The tag of a retry packet depends on the version, the connection identifier and the
/// packet alone: two configurations give the same one.
pub proof fn law_retry_tag_is_the_same_for_all<
    F: Fn(&ClientHelloView<'_>) -> Arc<rustls::ServerConfig>,
>(
    one: &DeferredServerConfig<F>,
    other: &DeferredServerConfig<F>,
    version: u32,
    orig_dst_cid: &[u8],
    packet: &[u8],
    tag: [u8; 16],
    other_tag: [u8; 16],
)
    requires
        call_ensures(
            DeferredServerConfig::<F>::retry_tag,
            (one, version, orig_dst_cid, packet),
            tag,
        ),
        call_ensures(
            DeferredServerConfig::<F>::retry_tag,
            (other, version, orig_dst_cid, packet),
            other_tag,
        ),
    ensures
        tag@ == outside::retry_integrity_tag(version, orig_dst_cid@, packet@),
        tag@ == other_tag@,
{
}

/// A configuration holds what it was made with: its default is a conversion of
/// `default_rustls`, its selector is `selector`. Where the conversion fails, its error is
/// the answer.
pub proof fn law_new_keeps_both<
    F: Fn(&ClientHelloView<'_>) -> Arc<rustls::ServerConfig>,
>(
    default_rustls: Arc<rustls::ServerConfig>,
    selector: Arc<F>,
    result: Result<DeferredServerConfig<F>, NoInitialCipherSuite>,
)
    requires
        call_ensures(DeferredServerConfig::<F>::new, (default_rustls, selector), result),
    ensures
        result matches Ok(config) ==> config.selector == selector && call_ensures(
            <QuicServerConfig as TryFrom<Arc<rustls::ServerConfig>>>::try_from,
            (default_rustls,),
            Ok(*config.default_quic),
        ),
        result matches Err(error) ==> call_ensures(
            <QuicServerConfig as TryFrom<Arc<rustls::ServerConfig>>>::try_from,
            (default_rustls,),
            Err(error),
        ),
{
}

} // verus!
