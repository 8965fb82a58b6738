//! A crypto session that picks its configuration once the `ClientHello` is there.

use crate::encoding;
use crate::encoding::ClientHello;
use crate::grammar;
use crate::grammar::Outcome;
use crate::laws;
use crate::outside;
use crate::outside::protocol_violation_code;
use crate::parse;
use crate::parse::{try_parse, Parse};
use crate::wire;
use quinn_proto::crypto::rustls::{NoInitialCipherSuite, QuicServerConfig};
use quinn_proto::crypto::{ExportKeyingMaterialError, Keys};
use quinn_proto::transport_parameters::TransportParameters;
use quinn_proto::{ConnectionId, Side, TransportError, TransportErrorCode};
use std::sync::Arc;
use vstd::pervasive::unreached;
use vstd::prelude::*;

verus! {

/// Minimal view over a received `ClientHello`.
pub struct ClientHelloView<'a> {
    /// The requested server name (SNI).
    pub server_name: Option<&'a str>,
    /// The offered application protocols (ALPN), in the client's order.
    pub alpn: &'a [&'a [u8]],
    /// Every byte that was received so far.
    pub raw: &'a [u8],
}

impl<'a> ClientHelloView<'a> {
    /// Whether this is the view over `raw`, with what [`grammar::outcome`] says of it.
    pub open spec fn shows(self, raw: Seq<u8>) -> bool {
        &&& self.raw@ == raw
        &&& grammar::outcome(raw) matches Outcome::Complete { server_name, alpn, .. }
        &&& parse::text(self.server_name) == server_name
        &&& wire::contents(self.alpn@) == alpn
    }
}

/// A TLS session of a QUIC connection, as the transport drives it.
///
/// What a session hands out without anyone here looking inside is left to the
/// implementation, as an associated type.
pub trait CryptoSession: Sized {
    /// What was negotiated during the handshake.
    type HandshakeData;

    /// Who the peer is.
    type PeerIdentity;

    /// Keys for data that is sent before the handshake is over.
    type EarlyKeys;

    /// Keys for the next key update.
    type UpdateKeys;

    /// Whether a session can be started from `config`. An implementation that needs
    /// more than the conversion for QUIC checks says so here.
    open spec fn accepts(config: QuicServerConfig) -> bool {
        true
    }

    /// Starts a server session.
    fn start(config: Arc<QuicServerConfig>, version: u32, params: &TransportParameters) -> Self
        requires
            outside::is_supported_version(version),
            Self::accepts(*config),
    ;

    /// The initial keys for the client's initial destination connection identifier.
    fn initial_keys(&self, dst_cid: &ConnectionId, side: Side) -> Keys;

    /// What was negotiated during the handshake, if that is known.
    fn handshake_data(&self) -> Option<Self::HandshakeData>;

    /// Who the peer is, if that is known.
    fn peer_identity(&self) -> Option<Self::PeerIdentity>;

    /// The keys for early data, if there are any.
    fn early_crypto(&self) -> Option<Self::EarlyKeys>;

    /// Whether the peer has accepted early data, if that is known.
    fn early_data_accepted(&self) -> Option<bool>;

    /// Whether the handshake is still going on.
    fn is_handshaking(&self) -> bool;

    /// Takes handshake bytes in. Tells whether handshake data has become available.
    fn read_handshake(&mut self, buf: &[u8]) -> Result<bool, TransportError>;

    /// The peer's transport parameters, if they are known.
    fn transport_parameters(&self) -> Result<Option<TransportParameters>, TransportError>;

    /// Appends handshake bytes to `buf`. Gives new keys where the handshake has
    /// entered another phase.
    fn write_handshake(&mut self, buf: &mut Vec<u8>) -> Option<Keys>;

    /// The keys for the next key update, if there are any.
    fn next_1rtt_keys(&mut self) -> Option<Self::UpdateKeys>;

    /// Whether a retry packet is intact.
    fn is_valid_retry(&self, orig_dst_cid: &ConnectionId, header: &[u8], payload: &[u8]) -> bool;

    /// Fills `output` with keying material.
    fn export_keying_material(
        &self,
        output: &mut [u8],
        label: &[u8],
        context: &[u8],
    ) -> Result<(), ExportKeyingMaterialError>;
}

/// Where a [`DeferredSession`] stands.
pub enum SessionState<S> {
    /// Buffering CRYPTO bytes until the full `ClientHello` is available. Until then
    /// `default_session` answers what needs a session.
    Buffering { buffer: Vec<u8>, default_session: S },
    /// The session from the selected configuration. From here on everything goes
    /// to it.
    Active(S),
}

/// A session that buffers CRYPTO bytes until the `ClientHello` is there, lets
/// `selector` choose a configuration, and from then on is the session that was
/// started from it.
pub struct DeferredSession<S, F> {
    pub state: SessionState<S>,
    pub selector: Arc<F>,
    pub version: u32,
    pub params: TransportParameters,
}

/// Whether `converted` is a result of converting `config` for QUIC.
pub open spec fn converts(
    config: Arc<rustls::ServerConfig>,
    converted: Result<QuicServerConfig, NoInitialCipherSuite>,
) -> bool {
    call_ensures(
        <QuicServerConfig as TryFrom<Arc<rustls::ServerConfig>>>::try_from,
        (config,),
        converted,
    )
}

/// Whether `code` is [`quinn_proto::TransportErrorCode::PROTOCOL_VIOLATION`].
pub closed spec fn is_violation_code(code: TransportErrorCode) -> bool {
    call_ensures(protocol_violation_code, (), code)
}

/// Whether `error` is a protocol violation for `reason`: it has the code of one, names
/// no frame, and gives the reason.
pub open spec fn is_protocol_violation(error: TransportError, reason: Seq<char>) -> bool {
    &&& is_violation_code(error.code)
    &&& error.frame is None
    &&& error.reason@ == reason
}

/// A protocol violation for `reason`.
pub fn protocol_violation(reason: &'static str) -> (error: TransportError)
    ensures
        is_protocol_violation(error, reason@),
{
    TransportError { code: protocol_violation_code(), frame: None, reason: reason.to_owned() }
}

/// Whether `selector` can be asked about every `ClientHello`, and every configuration
/// that it may choose, once converted, can start a session of type `S`.
pub open spec fn selects_for<S: CryptoSession, F: Fn(&ClientHelloView<'_>) -> Arc<
    rustls::ServerConfig,
>>(selector: F) -> bool {
    &&& forall|hello: &ClientHelloView<'_>| #[trigger] call_requires(selector, (hello,))
    &&& forall|
        hello: &ClientHelloView<'_>,
        config: Arc<rustls::ServerConfig>,
        quic: QuicServerConfig,
    |
        #![trigger call_ensures(selector, (hello,), config), converts(config, Ok(quic))]
        call_ensures(selector, (hello,), config) && converts(config, Ok(quic)) ==> S::accepts(quic)
}

impl<S: CryptoSession, F: Fn(&ClientHelloView<'_>) -> Arc<rustls::ServerConfig>> DeferredSession<
    S,
    F,
> {
    /// What every operation keeps: a session can be started for the version, from
    /// whatever the selector chooses.
    pub open spec fn well_formed(self) -> bool {
        &&& outside::is_supported_version(self.version)
        &&& selects_for::<S, F>(*self.selector)
    }

    /// Whether this is `earlier`, still buffering, with `bytes` as what has come in.
    pub open spec fn buffers(self, earlier: Self, bytes: Seq<u8>) -> bool {
        &&& earlier.state matches SessionState::Buffering { default_session: expected, .. }
        &&& self.state matches SessionState::Buffering { buffer, default_session }
        &&& buffer@ == bytes
        &&& default_session == expected
        &&& self.same_settings(earlier)
    }

    /// Whether selector, version and parameters are those of `earlier`.
    pub open spec fn same_settings(self, earlier: Self) -> bool {
        &&& self.selector == earlier.selector
        &&& self.version == earlier.version
        &&& self.params == earlier.params
    }

    /// The bytes that are buffered; none once a session is active.
    pub open spec fn buffered(self) -> Seq<u8> {
        match self.state {
            SessionState::Buffering { buffer, .. } => buffer@,
            SessionState::Active(_) => Seq::empty(),
        }
    }

    /// Goes on with the configuration that the selector chose, once converted: starts
    /// a session from it, replays the buffered bytes into it, and hands over to it. A
    /// configuration that could not be converted is refused, and buffering goes on.
    pub fn adopt(
        &mut self,
        selected: Result<QuicServerConfig, NoInitialCipherSuite>,
    ) -> (result: Result<bool, TransportError>)
        requires
            old(self).well_formed(),
            old(self).state is Buffering,
            selected matches Ok(quic) ==> S::accepts(quic),
        ensures
            final(self).well_formed(),
            final(self).selector == old(self).selector,
            final(self).version == old(self).version,
            final(self).params == old(self).params,
            match selected {
                Err(_) => {
                    &&& *final(self) == *old(self)
                    &&& result matches Err(error)
                    &&& is_protocol_violation(
                        error,
                        "selected ServerConfig lacks a QUIC-compatible TLS 1.3 suite"@,
                    )
                },
                Ok(quic) => {
                    &&& final(self).same_settings(*old(self))
                    &&& final(self).state matches SessionState::Active(active)
                    &&& exists|config: Arc<QuicServerConfig>, session: &mut S, bytes: &[u8]|
                        {
                            &&& *config == quic
                            &&& #[trigger] call_ensures(
                                S::start,
                                (config, old(self).version, &old(self).params),
                                *session,
                            )
                            &&& bytes@ == old(self).buffered()
                            &&& old(self).state matches SessionState::Buffering { buffer, .. }
                                && bytes@ == buffer@
                            &&& #[trigger] call_ensures(
                                S::read_handshake,
                                (session, bytes),
                                result,
                            )
                            &&& *final(session) == active
                        }
                },
            },
    {
        let quic = match selected {
            Ok(quic) => quic,
            Err(_) => {
                return Err(
                    protocol_violation(
                        "selected ServerConfig lacks a QUIC-compatible TLS 1.3 suite",
                    ),
                );
            },
        };
        let mut session = S::start(Arc::new(quic), self.version, &self.params);
        let result = match &self.state {
            SessionState::Buffering { buffer, .. } => session.read_handshake(buffer.as_slice()),
            SessionState::Active(_) => unreached(),
        };
        self.state = SessionState::Active(session);
        result
    }

    /// Takes handshake bytes in.
    ///
    /// While buffering, the bytes are appended to the buffer. An incomplete
    /// `ClientHello` waits for more, a malformed one is a protocol violation. Over a
    /// complete one the selector is asked, its choice is converted, and
    /// [`DeferredSession::adopt`] goes on with the result. An active session gets
    /// the bytes as they are.
    pub fn read_handshake(&mut self, buf: &[u8]) -> (result: Result<bool, TransportError>)
        requires
            old(self).well_formed(),
        ensures
            final(self).well_formed(),
            final(self).same_settings(*old(self)),
            final(self).selector == old(self).selector,
            final(self).version == old(self).version,
            final(self).params == old(self).params,
            match old(self).state {
                SessionState::Active(before) => {
                    &&& final(self).state matches SessionState::Active(after)
                    &&& exists|session: &mut S|
                        {
                            &&& *session == before
                            &&& #[trigger] call_ensures(S::read_handshake, (session, buf), result)
                            &&& *final(session) == after
                        }
                },
                SessionState::Buffering { buffer, .. } => match grammar::outcome(buffer@ + buf@) {
                    Outcome::Incomplete => {
                        &&& final(self).buffers(*old(self), buffer@ + buf@)
                        &&& result == Ok::<bool, TransportError>(false)
                    },
                    Outcome::Error(reason) => {
                        &&& final(self).buffers(*old(self), buffer@ + buf@)
                        &&& result matches Err(error)
                        &&& is_protocol_violation(error, reason)
                    },
                    Outcome::Complete { .. } => exists|
                        hello: ClientHelloView<'_>,
                        chosen: Arc<rustls::ServerConfig>,
                        selected: Result<QuicServerConfig, NoInitialCipherSuite>,
                    |
                        {
                            &&& hello.shows(buffer@ + buf@)
                            &&& hello.raw@ == buffer@ + buf@
                            &&& #[trigger] call_ensures(*old(self).selector, (&hello,), chosen)
                            &&& #[trigger] converts(chosen, selected)
                            &&& match selected {
                                Err(_) => {
                                    &&& final(self).buffers(*old(self), buffer@ + buf@)
                                    &&& result matches Err(error)
                                    &&& is_protocol_violation(
                                        error,
                                        "selected ServerConfig lacks a QUIC-compatible TLS 1.3 suite"@,
                                    )
                                },
                                Ok(quic) => {
                                    &&& final(self).state matches SessionState::Active(active)
                                    &&& exists|
                                        config: Arc<QuicServerConfig>,
                                        session: &mut S,
                                        bytes: &[u8],
                                    |
                                        {
                                            &&& *config == quic
                                            &&& #[trigger] call_ensures(
                                                S::start,
                                                (config, old(self).version, &old(self).params),
                                                *session,
                                            )
                                            &&& bytes@ == buffer@ + buf@
                                            &&& #[trigger] call_ensures(
                                                S::read_handshake,
                                                (session, bytes),
                                                result,
                                            )
                                            &&& *final(session) == active
                                        }
                                },
                            }
                        },
                },
            },
    {
        let selected = match &mut self.state {
            SessionState::Active(session) => return session.read_handshake(buf),
            SessionState::Buffering { buffer, .. } => {
                let ghost earlier = buffer@;
                buffer.extend_from_slice(buf);
                assert(buffer@ == earlier + buf@);
                match try_parse(buffer.as_slice()) {
                    Parse::Incomplete => return Ok(false),
                    Parse::Error(message) => return Err(protocol_violation(message)),
                    Parse::Complete { server_name, alpn, .. } => {
                        let hello = ClientHelloView {
                            server_name,
                            alpn: alpn.as_slice(),
                            raw: buffer.as_slice(),
                        };
                        let chosen = (*self.selector)(&hello);
                        assert(call_ensures(*self.selector, (&hello,), chosen));
                        let selected = QuicServerConfig::try_from(chosen);
                        assert(converts(chosen, selected));
                        assert(hello.shows(earlier + buf@));
                        selected
                    },
                }
            },
        };
        self.adopt(selected)
    }

    /// The initial keys, from the active session, and before that from the default
    /// one.
    pub fn initial_keys(&self, dst_cid: &ConnectionId, side: Side) -> (keys: Keys)
        ensures
            match self.state {
                SessionState::Active(session) => call_ensures(
                    S::initial_keys,
                    (&session, dst_cid, side),
                    keys,
                ),
                SessionState::Buffering { default_session, .. } => call_ensures(
                    S::initial_keys,
                    (&default_session, dst_cid, side),
                    keys,
                ),
            },
    {
        match &self.state {
            SessionState::Buffering { default_session, .. } => default_session.initial_keys(
                dst_cid,
                side,
            ),
            SessionState::Active(session) => session.initial_keys(dst_cid, side),
        }
    }

    /// Whether a retry packet is intact, by the active session, and before that by
    /// the default one.
    pub fn is_valid_retry(
        &self,
        orig_dst_cid: &ConnectionId,
        header: &[u8],
        payload: &[u8],
    ) -> (valid: bool)
        ensures
            match self.state {
                SessionState::Active(session) => call_ensures(
                    S::is_valid_retry,
                    (&session, orig_dst_cid, header, payload),
                    valid,
                ),
                SessionState::Buffering { default_session, .. } => call_ensures(
                    S::is_valid_retry,
                    (&default_session, orig_dst_cid, header, payload),
                    valid,
                ),
            },
    {
        match &self.state {
            SessionState::Active(session) => session.is_valid_retry(orig_dst_cid, header, payload),
            SessionState::Buffering { default_session, .. } => default_session.is_valid_retry(
                orig_dst_cid,
                header,
                payload,
            ),
        }
    }

    /// What was negotiated; nothing while buffering.
    pub fn handshake_data(&self) -> (result: Option<S::HandshakeData>)
        ensures
            match self.state {
                SessionState::Active(session) => call_ensures(S::handshake_data, (&session,), result),
                SessionState::Buffering { .. } => result is None,
            },
    {
        match &self.state {
            SessionState::Active(session) => session.handshake_data(),
            SessionState::Buffering { .. } => None,
        }
    }

    /// Who the peer is; nothing while buffering.
    pub fn peer_identity(&self) -> (result: Option<S::PeerIdentity>)
        ensures
            match self.state {
                SessionState::Active(session) => call_ensures(S::peer_identity, (&session,), result),
                SessionState::Buffering { .. } => result is None,
            },
    {
        match &self.state {
            SessionState::Active(session) => session.peer_identity(),
            SessionState::Buffering { .. } => None,
        }
    }

    /// The keys for early data; none while buffering.
    pub fn early_crypto(&self) -> (result: Option<S::EarlyKeys>)
        ensures
            match self.state {
                SessionState::Active(session) => call_ensures(S::early_crypto, (&session,), result),
                SessionState::Buffering { .. } => result is None,
            },
    {
        match &self.state {
            SessionState::Active(session) => session.early_crypto(),
            SessionState::Buffering { .. } => None,
        }
    }

    /// Whether early data was accepted; not known while buffering.
    pub fn early_data_accepted(&self) -> (result: Option<bool>)
        ensures
            match self.state {
                SessionState::Active(session) => call_ensures(S::early_data_accepted, (&session,), result),
                SessionState::Buffering { .. } => result is None,
            },
    {
        match &self.state {
            SessionState::Active(session) => session.early_data_accepted(),
            SessionState::Buffering { .. } => None,
        }
    }

    /// Whether the handshake is still going on, as it is while buffering.
    pub fn is_handshaking(&self) -> (result: bool)
        ensures
            match self.state {
                SessionState::Active(session) => call_ensures(S::is_handshaking, (&session,), result),
                SessionState::Buffering { .. } => result,
            },
    {
        match &self.state {
            SessionState::Active(session) => session.is_handshaking(),
            SessionState::Buffering { .. } => true,
        }
    }

    /// The peer's transport parameters; none while buffering.
    pub fn transport_parameters(&self) -> (result: Result<Option<TransportParameters>, TransportError>)
        ensures
            match self.state {
                SessionState::Active(session) => call_ensures(S::transport_parameters, (&session,), result),
                SessionState::Buffering { .. } => result == Ok::<
                    Option<TransportParameters>,
                    TransportError,
                >(None),
            },
    {
        match &self.state {
            SessionState::Active(session) => session.transport_parameters(),
            SessionState::Buffering { .. } => Ok(None),
        }
    }

    /// Appends what the active session has to say to `buf`; while buffering there is
    /// nothing to say.
    pub fn write_handshake(&mut self, buf: &mut Vec<u8>) -> (keys: Option<Keys>)
        ensures
            old(self).well_formed() ==> final(self).well_formed(),
            final(self).same_settings(*old(self)),
            final(self).selector == old(self).selector,
            final(self).version == old(self).version,
            final(self).params == old(self).params,
            match old(self).state {
                SessionState::Active(before) => {
                    &&& final(self).state matches SessionState::Active(after)
                    &&& exists|session: &mut S, out: &mut Vec<u8>|
                        {
                            &&& *session == before
                            &&& *out == *old(buf)
                            &&& #[trigger] call_ensures(S::write_handshake, (session, out), keys)
                            &&& *final(session) == after
                            &&& *final(out) == *final(buf)
                        }
                },
                SessionState::Buffering { .. } => {
                    &&& *final(self) == *old(self)
                    &&& *final(buf) == *old(buf)
                    &&& keys is None
                },
            },
    {
        match &mut self.state {
            SessionState::Active(session) => session.write_handshake(buf),
            SessionState::Buffering { .. } => None,
        }
    }

    /// The keys for the next key update, from the active session; none while
    /// buffering.
    pub fn next_1rtt_keys(&mut self) -> (keys: Option<S::UpdateKeys>)
        ensures
            old(self).well_formed() ==> final(self).well_formed(),
            final(self).same_settings(*old(self)),
            final(self).selector == old(self).selector,
            final(self).version == old(self).version,
            final(self).params == old(self).params,
            match old(self).state {
                SessionState::Active(before) => {
                    &&& final(self).state matches SessionState::Active(after)
                    &&& exists|session: &mut S|
                        {
                            &&& *session == before
                            &&& #[trigger] call_ensures(S::next_1rtt_keys, (session,), keys)
                            &&& *final(session) == after
                        }
                },
                SessionState::Buffering { .. } => *final(self) == *old(self) && keys is None,
            },
    {
        match &mut self.state {
            SessionState::Active(session) => session.next_1rtt_keys(),
            SessionState::Buffering { .. } => None,
        }
    }

    /// Has the active session fill `output`; while buffering this fails and `output`
    /// stays as it is.
    pub fn export_keying_material(
        &self,
        output: &mut [u8],
        label: &[u8],
        context: &[u8],
    ) -> (result: Result<(), ExportKeyingMaterialError>)
        ensures
            match self.state {
                SessionState::Active(session) => exists|out: &mut [u8]|
                    {
                        &&& out@ == old(output)@
                        &&& #[trigger] call_ensures(
                            S::export_keying_material,
                            (&session, out, label, context),
                            result,
                        )
                        &&& final(out)@ == final(output)@
                    },
                SessionState::Buffering { .. } => {
                    &&& result == Err::<(), ExportKeyingMaterialError>(ExportKeyingMaterialError)
                    &&& final(output)@ == old(output)@
                },
            },
    {
        match &self.state {
            SessionState::Active(session) => session.export_keying_material(output, label, context),
            SessionState::Buffering { .. } => Err(ExportKeyingMaterialError),
        }
    }
}

/// It does not matter how the bytes are cut: what a session judges after `first` and
/// then `second` is what it would judge after both at once.
pub proof fn law_cuts_do_not_matter<
    S: CryptoSession,
    F: Fn(&ClientHelloView<'_>) -> Arc<rustls::ServerConfig>,
>(earlier: DeferredSession<S, F>, later: DeferredSession<S, F>, first: Seq<u8>, second: Seq<u8>)
    requires
        later.buffers(earlier, earlier.buffered() + first),
    ensures
        later.buffered() + second == earlier.buffered() + (first + second),
        grammar::outcome(later.buffered() + second) == grammar::outcome(
            earlier.buffered() + (first + second),
        ),
{
    assert(later.buffered() + second == earlier.buffered() + (first + second));
}

/// A refused client stays refused: after bytes that were a protocol violation, any
/// further bytes are one for the same reason.
pub proof fn law_refusal_is_final<
    S: CryptoSession,
    F: Fn(&ClientHelloView<'_>) -> Arc<rustls::ServerConfig>,
>(
    earlier: DeferredSession<S, F>,
    later: DeferredSession<S, F>,
    first: Seq<u8>,
    second: Seq<u8>,
    reason: Seq<char>,
)
    requires
        later.buffers(earlier, earlier.buffered() + first),
        grammar::outcome(earlier.buffered() + first) == Outcome::Error(reason),
    ensures
        grammar::outcome(later.buffered() + second) == Outcome::Error(reason),
{
    laws::law_decision_is_final(earlier.buffered() + first, second);
}

/// The selector sees what the client wrote: the first host name in UTF-8 that the
/// client asks for, and every protocol that it offers, in its order.
pub proof fn law_selector_sees_what_was_written(
    hello: ClientHelloView<'_>,
    written: ClientHello,
    rest: Seq<u8>,
)
    requires
        written.well_formed(),
        hello.shows(written.message() + rest),
    ensures
        parse::text(hello.server_name) == grammar::first_text(
            encoding::offer_of(written.extensions).hosts,
        ),
        wire::contents(hello.alpn@) == encoding::offer_of(written.extensions).alpn,
{
    encoding::law_client_hello_is_read_back(written, rest);
}

/// A view over bytes holds all of them, however many, and what the parser gives on them:
/// the same server name, and the same protocols in the same order.
pub proof fn law_view_holds_everything(
    hello: ClientHelloView<'_>,
    bytes: &[u8],
    parsed: Parse<'_>,
)
    requires
        hello.shows(bytes@),
        call_ensures(try_parse, (bytes,), parsed),
    ensures
        hello.raw@ == bytes@,
        ({
            &&& parsed matches Parse::Complete { server_name, alpn, .. }
            &&& match server_name {
                Some(name) => hello.server_name matches Some(shown) && shown@ == name@,
                None => hello.server_name is None,
            }
            &&& hello.alpn@.len() == alpn@.len()
            &&& forall|i: int|
                0 <= i < alpn@.len() ==> (#[trigger] hello.alpn@[i])@ == alpn@[i]@
        }),
{
    assert(parsed@ == grammar::outcome(bytes@));
    let alpn = parsed->alpn;
    assert(wire::contents(hello.alpn@) == wire::contents(alpn@));
    assert(wire::contents(hello.alpn@).len() == wire::contents(alpn@).len());
    assert forall|i: int| 0 <= i < alpn@.len() implies (#[trigger] hello.alpn@[i])@
        == alpn@[i]@ by {
        assert(wire::contents(hello.alpn@)[i] == hello.alpn@[i]@);
        assert(wire::contents(alpn@)[i] == alpn@[i]@);
    }
}

/// Without a whole message nothing is decided: a read answers `Ok(false)`, appends its
/// bytes, and changes nothing else.
pub proof fn law_read_waits<
    S: CryptoSession,
    F: Fn(&ClientHelloView<'_>) -> Arc<rustls::ServerConfig>,
>(
    session: &mut DeferredSession<S, F>,
    buf: &[u8],
    result: Result<bool, TransportError>,
    bytes: &[u8],
    parsed: Parse<'_>,
)
    requires
        call_ensures(DeferredSession::<S, F>::read_handshake, (session, buf), result),
        old(session).state matches SessionState::Buffering { buffer, .. } && bytes@ == buffer@
            + buf@,
        call_ensures(try_parse, (bytes,), parsed),
        parsed is Incomplete,
    ensures
        result matches Ok(ready) && !ready,
        old(session).state matches SessionState::Buffering { default_session: before, .. }
            && final(session).state matches SessionState::Buffering { buffer, default_session }
            && buffer@ == bytes@ && default_session == before,
        final(session).selector == old(session).selector,
        final(session).version == old(session).version,
        final(session).params == old(session).params,
{
    assert(parsed@ == grammar::outcome(bytes@));
}

/// What the parser refuses is refused with its reason, as a transport error that names no
/// frame; the bytes stay buffered, and nothing else changes.
pub proof fn law_read_refuses<
    S: CryptoSession,
    F: Fn(&ClientHelloView<'_>) -> Arc<rustls::ServerConfig>,
>(
    session: &mut DeferredSession<S, F>,
    buf: &[u8],
    result: Result<bool, TransportError>,
    bytes: &[u8],
    parsed: Parse<'_>,
)
    requires
        call_ensures(DeferredSession::<S, F>::read_handshake, (session, buf), result),
        old(session).state matches SessionState::Buffering { buffer, .. } && bytes@ == buffer@
            + buf@,
        call_ensures(try_parse, (bytes,), parsed),
        parsed is Error,
    ensures
        parsed matches Parse::Error(reason) && result matches Err(error) && error.reason@
            == reason@ && error.frame is None && is_violation_code(error.code),
        old(session).state matches SessionState::Buffering { default_session: before, .. }
            && final(session).state matches SessionState::Buffering { buffer, default_session }
            && buffer@ == bytes@ && default_session == before,
        final(session).selector == old(session).selector,
        final(session).version == old(session).version,
        final(session).params == old(session).params,
{
    assert(parsed@ == grammar::outcome(bytes@));
}

/// A whole message is acted on. The selector is asked about a view that holds every byte
/// received and what the parser gives on them. Its choice is converted. What cannot be
/// converted is refused, and the bytes stay buffered. From what can, a session is started
/// with the version and the parameters of the connection, every byte received is replayed
/// into it, its answer is the answer, and it takes over.
pub proof fn law_read_selects<
    S: CryptoSession,
    F: Fn(&ClientHelloView<'_>) -> Arc<rustls::ServerConfig>,
>(
    session: &mut DeferredSession<S, F>,
    buf: &[u8],
    result: Result<bool, TransportError>,
    bytes: &[u8],
    parsed: Parse<'_>,
)
    requires
        call_ensures(DeferredSession::<S, F>::read_handshake, (session, buf), result),
        old(session).state matches SessionState::Buffering { buffer, .. } && bytes@ == buffer@
            + buf@,
        call_ensures(try_parse, (bytes,), parsed),
        parsed is Complete,
    ensures
        final(session).selector == old(session).selector,
        final(session).version == old(session).version,
        final(session).params == old(session).params,
        exists|
            hello: ClientHelloView<'_>,
            chosen: Arc<rustls::ServerConfig>,
            selected: Result<QuicServerConfig, NoInitialCipherSuite>,
        |
            {
                &&& #[trigger] call_ensures(*old(session).selector, (&hello,), chosen)
                &&& hello.raw@ == bytes@
                &&& parsed matches Parse::Complete { server_name, alpn, .. }
                &&& match server_name {
                    Some(name) => hello.server_name matches Some(shown) && shown@ == name@,
                    None => hello.server_name is None,
                }
                &&& hello.alpn@.len() == alpn@.len()
                &&& forall|i: int|
                    0 <= i < alpn@.len() ==> (#[trigger] hello.alpn@[i])@ == alpn@[i]@
                &&& #[trigger] call_ensures(
                    <QuicServerConfig as TryFrom<Arc<rustls::ServerConfig>>>::try_from,
                    (chosen,),
                    selected,
                )
                &&& match selected {
                    Err(_) => {
                        &&& result matches Err(error)
                        &&& error.reason@
                            == "selected ServerConfig lacks a QUIC-compatible TLS 1.3 suite"@
                        &&& error.frame is None
                        &&& is_violation_code(error.code)
                        &&& old(session).state matches SessionState::Buffering {
                            default_session: before,
                            ..
                        }
                        &&& final(session).state matches SessionState::Buffering {
                            buffer,
                            default_session,
                        }
                        &&& buffer@ == bytes@
                        &&& default_session == before
                    },
                    Ok(quic) => {
                        &&& final(session).state matches SessionState::Active(active)
                        &&& exists|config: Arc<QuicServerConfig>, started: &mut S, replayed: &[u8]|
                            {
                                &&& *config == quic
                                &&& #[trigger] call_ensures(
                                    S::start,
                                    (config, old(session).version, &old(session).params),
                                    *started,
                                )
                                &&& replayed@ == bytes@
                                &&& #[trigger] call_ensures(
                                    S::read_handshake,
                                    (started, replayed),
                                    result,
                                )
                                &&& *final(started) == active
                            }
                    },
                }
            },
{
    assert(parsed@ == grammar::outcome(bytes@));
    let (hello, chosen, selected) = choose|
        hello: ClientHelloView<'_>,
        chosen: Arc<rustls::ServerConfig>,
        selected: Result<QuicServerConfig, NoInitialCipherSuite>,
    |
        {
            &&& hello.shows(bytes@)
            &&& #[trigger] call_ensures(*old(session).selector, (&hello,), chosen)
            &&& #[trigger] converts(chosen, selected)
            &&& match selected {
                Err(_) => {
                    &&& final(session).buffers(*old(session), bytes@)
                    &&& result matches Err(error)
                    &&& is_protocol_violation(
                        error,
                        "selected ServerConfig lacks a QUIC-compatible TLS 1.3 suite"@,
                    )
                },
                Ok(quic) => {
                    &&& final(session).state matches SessionState::Active(active)
                    &&& exists|config: Arc<QuicServerConfig>, started: &mut S, replayed: &[u8]|
                        {
                            &&& *config == quic
                            &&& #[trigger] call_ensures(
                                S::start,
                                (config, old(session).version, &old(session).params),
                                *started,
                            )
                            &&& replayed@ == bytes@
                            &&& #[trigger] call_ensures(
                                S::read_handshake,
                                (started, replayed),
                                result,
                            )
                            &&& *final(started) == active
                        }
                },
            }
        };
    law_view_holds_everything(hello, bytes, parsed);
    assert(call_ensures(*old(session).selector, (&hello,), chosen));
    assert(call_ensures(
        <QuicServerConfig as TryFrom<Arc<rustls::ServerConfig>>>::try_from,
        (chosen,),
        selected,
    ));
}

/// Two reads in a row are one: after bytes that decide nothing, the next read has both
/// before it. It answers and buffers as a single read of both would, as long as nothing is
/// decided.
pub proof fn law_two_reads_are_one<
    S: CryptoSession,
    F: Fn(&ClientHelloView<'_>) -> Arc<rustls::ServerConfig>,
>(
    first: &mut DeferredSession<S, F>,
    first_buf: &[u8],
    first_result: Result<bool, TransportError>,
    second: &mut DeferredSession<S, F>,
    second_buf: &[u8],
    second_result: Result<bool, TransportError>,
    both: &[u8],
    parsed: Parse<'_>,
)
    requires
        call_ensures(
            DeferredSession::<S, F>::read_handshake,
            (first, first_buf),
            first_result,
        ),
        *old(second) == *final(first),
        call_ensures(
            DeferredSession::<S, F>::read_handshake,
            (second, second_buf),
            second_result,
        ),
        old(first).state matches SessionState::Buffering { buffer, .. } && both@ == buffer@
            + first_buf@ + second_buf@,
        call_ensures(try_parse, (both,), parsed),
        parsed is Incomplete,
    ensures
        first_result matches Ok(ready) && !ready,
        second_result matches Ok(ready) && !ready,
        final(second).state matches SessionState::Buffering { buffer, .. } && buffer@ == both@,
{
    assert(parsed@ == grammar::outcome(both@));
    let before = old(first).buffered() + first_buf@;
    assert(both@ == before + second_buf@);
    if !(grammar::outcome(before) is Incomplete) {
        laws::law_decision_is_final(before, second_buf@);
    }
}

/// A refusal is not taken back: after a read that the parser refuses, any other read is
/// refused for the same reason.
pub proof fn law_reads_after_refusal<
    S: CryptoSession,
    F: Fn(&ClientHelloView<'_>) -> Arc<rustls::ServerConfig>,
>(
    first: &mut DeferredSession<S, F>,
    first_buf: &[u8],
    first_result: Result<bool, TransportError>,
    second: &mut DeferredSession<S, F>,
    second_buf: &[u8],
    second_result: Result<bool, TransportError>,
    bytes: &[u8],
    parsed: Parse<'_>,
)
    requires
        call_ensures(
            DeferredSession::<S, F>::read_handshake,
            (first, first_buf),
            first_result,
        ),
        *old(second) == *final(first),
        call_ensures(
            DeferredSession::<S, F>::read_handshake,
            (second, second_buf),
            second_result,
        ),
        old(first).state matches SessionState::Buffering { buffer, .. } && bytes@ == buffer@
            + first_buf@,
        call_ensures(try_parse, (bytes,), parsed),
        parsed is Error,
    ensures
        parsed matches Parse::Error(reason) && first_result matches Err(error) && error.reason@
            == reason@,
        parsed matches Parse::Error(reason) && second_result matches Err(error) && error.reason@
            == reason@,
        final(second).state is Buffering,
{
    assert(parsed@ == grammar::outcome(bytes@));
    laws::law_decision_is_final(bytes@, second_buf@);
}

/// An active session is never left: a read goes to it as it is, its answer is the answer,
/// and it stays in charge.
pub proof fn law_read_goes_to_active<
    S: CryptoSession,
    F: Fn(&ClientHelloView<'_>) -> Arc<rustls::ServerConfig>,
>(
    session: &mut DeferredSession<S, F>,
    buf: &[u8],
    result: Result<bool, TransportError>,
)
    requires
        call_ensures(DeferredSession::<S, F>::read_handshake, (session, buf), result),
        old(session).state is Active,
    ensures
        old(session).state matches SessionState::Active(before) 
            && final(session).state matches SessionState::Active(after) && exists|reading: &mut S|
            *reading == before && #[trigger] call_ensures(
                S::read_handshake,
                (reading, buf),
                result,
            ) && *final(reading) == after,
{
}

/// A protocol violation gives the reason that it was made with, word for word, names no
/// frame, and has the code that `quinn-proto` has for it.
pub(crate) proof fn law_protocol_violation(reason: &'static str, error: TransportError)
    requires
        call_ensures(protocol_violation, (reason,), error),
    ensures
        error.reason@ == reason@,
        error.frame is None,
        call_ensures(protocol_violation_code, (), error.code),
{
}

/// The code of a violation is a value of the constant, and nothing else is.
pub(crate) proof fn law_violation_code(code: TransportErrorCode)
    ensures
        is_violation_code(code) <==> call_ensures(protocol_violation_code, (), code),
{
}

/// A session asks no more of its settings than that: a version that can be served, a
/// selector that answers every view, and choices that a session can be started from.
pub proof fn law_settings_that_suffice<
    S: CryptoSession,
    F: Fn(&ClientHelloView<'_>) -> Arc<rustls::ServerConfig>,
>(session: DeferredSession<S, F>)
    ensures
        session.well_formed() <==> {
            &&& session.version == 1 || 0xff00_001d <= session.version <= 0xff00_0022
            &&& forall|hello: &ClientHelloView<'_>| #[trigger]
                call_requires(*session.selector, (hello,))
            &&& forall|
                hello: &ClientHelloView<'_>,
                config: Arc<rustls::ServerConfig>,
                quic: QuicServerConfig,
            |
                #[trigger] call_ensures(*session.selector, (hello,), config)
                    && #[trigger] call_ensures(
                    <QuicServerConfig as TryFrom<Arc<rustls::ServerConfig>>>::try_from,
                    (config,),
                    Ok(quic),
                ) ==> S::accepts(quic)
        },
{
    if session.well_formed() {
        assert forall|
            hello: &ClientHelloView<'_>,
            config: Arc<rustls::ServerConfig>,
            quic: QuicServerConfig,
        |
            #[trigger] call_ensures(*session.selector, (hello,), config)
                && #[trigger] call_ensures(
                <QuicServerConfig as TryFrom<Arc<rustls::ServerConfig>>>::try_from,
                (config,),
                Ok(quic),
            ) implies S::accepts(quic) by {
            assert(converts(config, Ok(quic)));
        }
    }
}

} // verus!
