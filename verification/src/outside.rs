//! The functions and types of `std`, `quinn-proto` and `rustls` that the verified
//! code uses, with what is taken on trust about each.

use quinn_proto::crypto::rustls::{NoInitialCipherSuite, QuicServerConfig};
use quinn_proto::crypto::{Keys, ServerConfig, UnsupportedVersion};
use quinn_proto::{ConnectionId, TransportErrorCode};
use std::sync::Arc;
use vstd::prelude::*;
use vstd::utf8;

verus! {

/// The error of [`std::str::from_utf8`]; opaque.
#[verifier::external_type_specification]
#[verifier::external_body]
pub struct ExUtf8Error(std::str::Utf8Error);

/// A TLS server configuration; opaque.
#[verifier::external_type_specification]
#[verifier::external_body]
pub struct ExRustlsServerConfig(rustls::ServerConfig);

/// A TLS server configuration that QUIC can use; opaque.
#[verifier::external_type_specification]
#[verifier::external_body]
pub struct ExQuicServerConfig(QuicServerConfig);

/// The error of a conversion into [`QuicServerConfig`]; opaque.
#[verifier::external_type_specification]
#[verifier::external_body]
pub struct ExNoInitialCipherSuite(NoInitialCipherSuite);

/// A set of packet protection keys; opaque.
#[verifier::external_type_specification]
#[verifier::external_body]
pub struct ExKeys(Keys);

/// The error that a QUIC version is not known; opaque.
#[verifier::external_type_specification]
#[verifier::external_body]
pub struct ExUnsupportedVersion(UnsupportedVersion);

/// A connection identifier; opaque.
#[verifier::external_type_specification]
#[verifier::external_body]
pub struct ExConnectionId(ConnectionId);

/// Which end of a connection; opaque.
#[verifier::external_type_specification]
#[verifier::external_body]
pub struct ExSide(quinn_proto::Side);

/// QUIC transport parameters; opaque.
#[verifier::external_type_specification]
#[verifier::external_body]
pub struct ExTransportParameters(quinn_proto::transport_parameters::TransportParameters);

/// The number of a QUIC transport error; opaque.
#[verifier::external_type_specification]
#[verifier::external_body]
pub struct ExTransportErrorCode(TransportErrorCode);

/// The type of a QUIC frame; opaque.
#[verifier::external_type_specification]
#[verifier::external_body]
pub struct ExFrameType(quinn_proto::FrameType);

/// A QUIC transport error. Its three fields, `code`, `frame` and `reason`, are public
/// and visible here.
#[verifier::external_type_specification]
pub struct ExTransportError(quinn_proto::TransportError);

/// The error of an export of keying material: a value without content.
#[verifier::external_type_specification]
pub struct ExExportKeyingMaterialError(quinn_proto::crypto::ExportKeyingMaterialError);

/// [`std::str::from_utf8`] succeeds on exactly the bytes that are UTF-8, and then
/// gives the text that they encode.
pub assume_specification<'a>[ std::str::from_utf8 ](v: &'a [u8]) -> (text: Result<
    &'a str,
    std::str::Utf8Error,
>)
    ensures
        text is Ok <==> utf8::valid_utf8(v@),
        text matches Ok(s) ==> s@ == utf8::decode_utf8(v@),
;

/// The conversion of a `rustls` configuration for QUIC. Nothing is claimed of its
/// result: it fails where the configuration's crypto provider lacks the initial
/// cipher suite, which an opaque value does not show.
pub assume_specification[ <QuicServerConfig as TryFrom<Arc<rustls::ServerConfig>>>::try_from ](
    inner: Arc<rustls::ServerConfig>,
) -> (converted: Result<
    QuicServerConfig,
    <QuicServerConfig as TryFrom<Arc<rustls::ServerConfig>>>::Error,
>)
;

/// The QUIC versions that `quinn-proto` can run TLS for: version 1 and the drafts
/// from 29 to 34.
pub open spec fn is_supported_version(version: u32) -> bool {
    version == 1 || 0xff00_001d <= version <= 0xff00_0022
}

/// `<QuicServerConfig as ServerConfig>::initial_keys`, which refuses exactly the
/// versions that are not supported. Nothing is claimed of the keys themselves, which
/// are opaque.
#[verifier::external_body]
pub(crate) fn quic_initial_keys(
    config: &QuicServerConfig,
    version: u32,
    dst_cid: &ConnectionId,
) -> (keys: Result<Keys, UnsupportedVersion>)
    ensures
        keys is Ok <==> (version == 1 || 0xff00_001d <= version <= 0xff00_0022),
{
    config.initial_keys(version, dst_cid)
}

/// The integrity tag that `quinn-proto` computes for a retry packet: by the version,
/// the bytes of the original destination connection identifier, and the packet.
pub uninterp spec fn retry_integrity_tag(
    version: u32,
    orig_dst_cid: Seq<u8>,
    packet: Seq<u8>,
) -> Seq<u8>;

/// `<QuicServerConfig as ServerConfig>::retry_tag`, over the connection identifier
/// with the given bytes. The tag is a function of the version, those bytes and the
/// packet, whatever the configuration: its key is fixed by the version. The call
/// panics on a version that is not supported, and an identifier has 20 bytes at
/// most.
#[verifier::external_body]
pub(crate) fn quic_retry_tag(
    config: &QuicServerConfig,
    version: u32,
    orig_dst_cid: &[u8],
    packet: &[u8],
) -> (tag: [u8; 16])
    requires
        is_supported_version(version),
        orig_dst_cid@.len() <= 20,
    ensures
        tag@ == retry_integrity_tag(version, orig_dst_cid@, packet@),
{
    config.retry_tag(version, &ConnectionId::new(orig_dst_cid), packet)
}

/// The constant `TransportErrorCode::PROTOCOL_VIOLATION`. Nothing is claimed of it:
/// a code is opaque.
#[verifier::external_body]
pub(crate) fn protocol_violation_code() -> (code: TransportErrorCode) {
    TransportErrorCode::PROTOCOL_VIOLATION
}

/// The supported versions are version 1 and the drafts from 29 to 34, and no others.
pub proof fn law_supported_versions(version: u32)
    ensures
        is_supported_version(version) <==> version == 1 || 0xff00_001d <= version <= 0xff00_0022,
{
}

} // verus!
