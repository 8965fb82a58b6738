//! What a TLS 1.3 `ClientHello` handshake message looks like on the wire, and
//! what a buffer that may hold one says.
//!
//! The message is a type byte, a length of three bytes, and the body:
//!
//! ```text
//! legacy_version (2) | random (32) | session_id (1+n) |
//! cipher_suites (2+n) | compression_methods (1+n) | extensions (2+n)
//! ```
//!
//! Every definition here is a specification; [`crate::parse::try_parse`] computes
//! [`outcome`].

use crate::wire;
use vstd::prelude::*;
use vstd::utf8;

verus! {

/// The handshake message type of a `ClientHello`.
pub const HANDSHAKE_TYPE_CLIENT_HELLO: u8 = 1;

/// The extension type of `server_name`.
pub const EXT_SERVER_NAME: u16 = 0;

/// The extension type of `application_layer_protocol_negotiation`.
pub const EXT_ALPN: u16 = 16;

/// The type of a server name that is a host name.
pub const SNI_NAME_TYPE_HOST: u8 = 0;

/// What a buffer of handshake bytes says.
pub enum Outcome {
    /// The message is not all there yet.
    Incomplete,
    /// A whole `ClientHello` of `total_len` bytes, header and body.
    Complete { server_name: Option<Seq<char>>, alpn: Seq<Seq<u8>>, total_len: int },
    /// Not a `ClientHello`, or a malformed one.
    Error(Seq<char>),
}

/// One entry of a server name list.
pub struct ServerName {
    pub name_type: u8,
    pub name: Seq<u8>,
}

/// What extensions contribute, in the order in which they give it: the names of
/// type host, and the application protocols.
pub struct Offer {
    pub hosts: Seq<Seq<u8>>,
    pub alpn: Seq<Seq<u8>>,
}

impl Offer {
    /// No name and no protocol.
    pub open spec fn none() -> Offer {
        Offer { hosts: Seq::empty(), alpn: Seq::empty() }
    }

    /// What `self` gives, then what `later` gives.
    pub open spec fn then_offer(self, later: Offer) -> Offer {
        Offer { hosts: self.hosts + later.hosts, alpn: self.alpn + later.alpn }
    }
}

/// The names of type host among `names`.
pub open spec fn host_names(names: Seq<ServerName>) -> Seq<Seq<u8>>
    decreases names.len(),
{
    if names.len() == 0 {
        Seq::empty()
    } else if names[0].name_type == SNI_NAME_TYPE_HOST {
        seq![names[0].name] + host_names(names.drop_first())
    } else {
        host_names(names.drop_first())
    }
}

/// The first of `names` that is UTF-8, as text.
pub open spec fn first_text(names: Seq<Seq<u8>>) -> Option<Seq<char>>
    decreases names.len(),
{
    if names.len() == 0 {
        None
    } else if utf8::valid_utf8(names[0]) {
        Some(utf8::decode_utf8(names[0]))
    } else {
        first_text(names.drop_first())
    }
}

/// The entries of a server name list: a type byte and a name with a length of two
/// bytes each, up to the end.
pub open spec fn server_names(list: Seq<u8>) -> Result<Seq<ServerName>, Seq<char>>
    decreases list.len(),
{
    let tail = list.subrange(1, list.len() as int);
    if list.len() == 0 {
        Ok(Seq::empty())
    } else if list.len() < 3 {
        Err("sni name length"@)
    } else if !wire::has_field(tail, 2) {
        Err("sni name body"@)
    } else {
        match server_names(wire::after_field(tail, 2)) {
            Ok(names) => Ok(
                seq![ServerName { name_type: list[0], name: wire::field_content(tail, 2) }] + names,
            ),
            Err(reason) => Err(reason),
        }
    }
}

/// The entries of a protocol name list: a name with a length of one byte each, up
/// to the end.
pub open spec fn protocols(list: Seq<u8>) -> Result<Seq<Seq<u8>>, Seq<char>>
    decreases list.len(),
{
    if list.len() == 0 {
        Ok(Seq::empty())
    } else if !wire::has_field(list, 1) {
        Err("alpn name body"@)
    } else {
        match protocols(wire::after_field(list, 1)) {
            Ok(names) => Ok(seq![wire::field_content(list, 1)] + names),
            Err(reason) => Err(reason),
        }
    }
}

/// What one extension contributes. The list of a `server_name` and that of an ALPN
/// extension have a length of two bytes; what follows the list is ignored, and so
/// is every other extension.
pub open spec fn extension_offer(ext_type: int, body: Seq<u8>) -> Result<Offer, Seq<char>> {
    if ext_type == EXT_SERVER_NAME {
        if body.len() < 2 {
            Err("sni list length"@)
        } else if !wire::has_field(body, 2) {
            Err("sni list body"@)
        } else {
            match server_names(wire::field_content(body, 2)) {
                Ok(names) => Ok(Offer { hosts: host_names(names), alpn: Seq::empty() }),
                Err(reason) => Err(reason),
            }
        }
    } else if ext_type == EXT_ALPN {
        if body.len() < 2 {
            Err("alpn list length"@)
        } else if !wire::has_field(body, 2) {
            Err("alpn list body"@)
        } else {
            match protocols(wire::field_content(body, 2)) {
                Ok(names) => Ok(Offer { hosts: Seq::empty(), alpn: names }),
                Err(reason) => Err(reason),
            }
        }
    } else {
        Ok(Offer::none())
    }
}

/// What a list of extensions contributes: a type of two bytes and a body with a
/// length of two bytes each, up to the end. The first fault counts.
pub open spec fn extensions_offer(list: Seq<u8>) -> Result<Offer, Seq<char>>
    decreases list.len(),
{
    let tail = list.subrange(2, list.len() as int);
    if list.len() == 0 {
        Ok(Offer::none())
    } else if list.len() < 2 {
        Err("extension header"@)
    } else if list.len() < 4 {
        Err("extension length"@)
    } else if !wire::has_field(tail, 2) {
        Err("extension body"@)
    } else {
        match extension_offer(wire::u16_at(list, 0), wire::field_content(tail, 2)) {
            Ok(first) => match extensions_offer(wire::after_field(tail, 2)) {
                Ok(later) => Ok(first.then_offer(later)),
                Err(reason) => Err(reason),
            },
            Err(reason) => Err(reason),
        }
    }
}

/// What the body of a `ClientHello` contributes, after its fixed part of 34 bytes.
/// What follows the extensions is ignored.
pub open spec fn body_offer(body: Seq<u8>) -> Result<Offer, Seq<char>> {
    let session_id = body.subrange(34, body.len() as int);
    let cipher_suites = wire::after_field(session_id, 1);
    let compression_methods = wire::after_field(cipher_suites, 2);
    let extensions = wire::after_field(compression_methods, 1);
    if body.len() < 34 {
        Err("truncated before session_id"@)
    } else if !wire::has_field(session_id, 1) {
        Err("truncated session_id"@)
    } else if !wire::has_field(cipher_suites, 2) {
        Err("truncated cipher_suites"@)
    } else if !wire::has_field(compression_methods, 1) {
        Err("truncated compression_methods"@)
    } else if extensions.len() < 2 {
        Err("missing extensions length"@)
    } else if !wire::has_field(extensions, 2) {
        Err("truncated extensions"@)
    } else {
        extensions_offer(wire::field_content(extensions, 2))
    }
}

/// What `buffer` says. Too few bytes for the header say nothing; a first byte of
/// another message type is refused as soon as the header is there; a body is read
/// once it is all there, and what follows it is ignored.
pub open spec fn outcome(buffer: Seq<u8>) -> Outcome {
    let total_len = 4 + wire::u24_at(buffer, 1);
    if buffer.len() < 4 {
        Outcome::Incomplete
    } else if buffer[0] != HANDSHAKE_TYPE_CLIENT_HELLO {
        Outcome::Error("first handshake message is not ClientHello"@)
    } else if buffer.len() < total_len {
        Outcome::Incomplete
    } else {
        match body_offer(buffer.subrange(4, total_len)) {
            Ok(offer) => Outcome::Complete {
                server_name: first_text(offer.hosts),
                alpn: offer.alpn,
                total_len,
            },
            Err(reason) => Outcome::Error(reason),
        }
    }
}

/// The first host name of a list with an entry in front: that entry, where it is a
/// host name in UTF-8, and else what the rest of the list gives.
pub proof fn lemma_first_text_of_entry(entry: ServerName, later: Seq<ServerName>)
    ensures
        first_text(host_names(seq![entry] + later)) == if entry.name_type == SNI_NAME_TYPE_HOST
            && utf8::valid_utf8(entry.name) {
            Some(utf8::decode_utf8(entry.name))
        } else {
            first_text(host_names(later))
        },
{
    let names = seq![entry] + later;
    assert(names.drop_first() == later);
    if entry.name_type == SNI_NAME_TYPE_HOST {
        assert(host_names(names).drop_first() == host_names(later));
    }
}

/// The first text of two lists in a row is that of the front list, and that of the
/// back list where the front has none.
pub proof fn lemma_first_text_of_sum(front: Seq<Seq<u8>>, back: Seq<Seq<u8>>)
    ensures
        first_text(front + back) == match first_text(front) {
            Some(text) => Some(text),
            None => first_text(back),
        },
    decreases front.len(),
{
    if front.len() == 0 {
        assert(front + back == back);
    } else {
        assert((front + back).drop_first() == front.drop_first() + back);
        lemma_first_text_of_sum(front.drop_first(), back);
    }
}

/// Two offers in a row give all that either gives, the earlier first.
pub proof fn law_offers_add_up(first: Offer, later: Offer)
    ensures
        first.then_offer(later).hosts == first.hosts + later.hosts,
        first.then_offer(later).alpn == first.alpn + later.alpn,
{
}

/// The host names of a list are the names of its entries of type 0, in order.
pub proof fn law_host_names_are_those_of_type_host(names: Seq<ServerName>)
    ensures
        host_names(names) == names.filter(|n: ServerName| n.name_type == 0).map_values(
            |n: ServerName| n.name,
        ),
    decreases names.len(),
{
    let is_host = |n: ServerName| n.name_type == 0;
    let name = |n: ServerName| n.name;
    assert(names.filter(|n: ServerName| n.name_type == 0).map_values(|n: ServerName| n.name)
        == names.filter(is_host).map_values(name)) by {
        assert((|n: ServerName| n.name_type == 0) =~= is_host);
    }
    if names.len() > 0 {
        let later = names.drop_first();
        law_host_names_are_those_of_type_host(later);
        assert((|n: ServerName| n.name_type == 0) =~= is_host);
        assert(names == seq![names[0]] + later);
        Seq::filter_distributes_over_add(seq![names[0]], later, is_host);
        assert(seq![names[0]].filter(is_host) == if is_host(names[0]) {
            seq![names[0]]
        } else {
            Seq::empty()
        }) by {
            reveal_with_fuel(Seq::filter, 2);
            assert(seq![names[0]].drop_last() == Seq::<ServerName>::empty());
        }
        assert(names.filter(is_host).map_values(name) == host_names(names));
    } else {
        reveal_with_fuel(Seq::filter, 1);
    }
}

} // verus!
