//! Minimal TLS 1.3 `ClientHello` parser, scoped to what the choice of a
//! configuration needs: whether the full message has arrived, the requested server
//! name and the offered application protocols. Names and protocols are borrowed
//! from the buffer.

use crate::grammar;
use crate::grammar::{
    Outcome, EXT_ALPN, EXT_SERVER_NAME, HANDSHAKE_TYPE_CLIENT_HELLO, SNI_NAME_TYPE_HOST,
};
use crate::reader::Reader;
use crate::wire;
use vstd::prelude::*;

verus! {

/// Result of a parse attempt against an incremental CRYPTO byte buffer.
pub enum Parse<'a> {
    /// Not enough bytes yet for a complete `ClientHello`. The caller should buffer
    /// more and retry.
    Incomplete,
    /// A complete `ClientHello` is present in the buffer. `_total_len` is the
    /// number of bytes that the handshake message occupies, the 4-byte handshake
    /// header counted in.
    Complete { server_name: Option<&'a str>, alpn: Vec<&'a [u8]>, _total_len: usize },
    /// The buffer is not a `ClientHello`, or is malformed.
    Error(&'static str),
}

impl<'a> View for Parse<'a> {
    type V = Outcome;

    open spec fn view(&self) -> Outcome {
        match *self {
            Parse::Incomplete => Outcome::Incomplete,
            Parse::Complete { server_name, alpn, _total_len } => Outcome::Complete {
                server_name: text(server_name),
                alpn: wire::contents(alpn@),
                total_len: _total_len as int,
            },
            Parse::Error(reason) => Outcome::Error(reason@),
        }
    }
}

/// The characters of an optional string.
pub open spec fn text(name: Option<&str>) -> Option<Seq<char>> {
    match name {
        Some(name) => Some(name@),
        None => None,
    }
}

/// `found`, and where there is none, `later`.
pub open spec fn found_or(found: Option<&str>, later: Option<Seq<char>>) -> Option<Seq<char>> {
    match found {
        Some(name) => Some(name@),
        None => later,
    }
}

/// Reads the entries of a server name list. `found` is the name that earlier
/// entries gave; without one, the first host name that is UTF-8 is taken.
fn read_server_names<'a>(list: &'a [u8], found: Option<&'a str>) -> (result: Result<
    Option<&'a str>,
    &'static str,
>)
    ensures
        match grammar::server_names(list@) {
            Ok(names) => result matches Ok(name) && text(name) == found_or(
                found,
                grammar::first_text(grammar::host_names(names)),
            ),
            Err(reason) => result matches Err(message) && message@ == reason,
        },
{
    let mut server_name = found;
    let mut reader = Reader::new(list);
    while !reader.empty()
        invariant
            match grammar::server_names(reader@) {
                Ok(later) => {
                    &&& grammar::server_names(list@) matches Ok(names)
                    &&& found_or(found, grammar::first_text(grammar::host_names(names))) == found_or(
                        server_name,
                        grammar::first_text(grammar::host_names(later)),
                    )
                },
                Err(reason) => grammar::server_names(list@) == Err::<
                    Seq<grammar::ServerName>,
                    Seq<char>,
                >(reason),
            },
        decreases reader@.len(),
    {
        let ghost tail = reader@.subrange(1, reader@.len() as int);
        let name_type: u8 = match reader.read_u8() {
            Ok(value) => value,
            Err(_) => return Err("sni name_type"),
        };
        let name_len: usize = match reader.read_u16() {
            Ok(value) => value as usize,
            Err(_) => return Err("sni name length"),
        };
        let name_bytes = match reader.take(name_len) {
            Ok(value) => value,
            Err(_) => return Err("sni name body"),
        };
        assert(name_bytes@ == wire::field_content(tail, 2));
        assert(reader@ == wire::after_field(tail, 2));
        proof {
            if let Ok(later) = grammar::server_names(reader@) {
                grammar::lemma_first_text_of_entry(
                    grammar::ServerName { name_type, name: name_bytes@ },
                    later,
                );
            }
        }
        if name_type == SNI_NAME_TYPE_HOST && server_name.is_none() {
            if let Ok(name) = std::str::from_utf8(name_bytes) {
                server_name = Some(name);
            }
        }
    }
    Ok(server_name)
}

/// Reads the entries of a protocol name list and appends them to `alpn`.
fn read_protocols<'a>(list: &'a [u8], alpn: &mut Vec<&'a [u8]>) -> (result: Result<
    (),
    &'static str,
>)
    ensures
        match grammar::protocols(list@) {
            Ok(names) => {
                &&& result is Ok
                &&& wire::contents(final(alpn)@) == wire::contents(old(alpn)@) + names
            },
            Err(reason) => result matches Err(message) && message@ == reason,
        },
{
    let ghost before = wire::contents(alpn@);
    let mut reader = Reader::new(list);
    assert(grammar::protocols(list@) matches Ok(names) ==> before + names
        == wire::contents(alpn@) + names);
    while !reader.empty()
        invariant
            match grammar::protocols(reader@) {
                Ok(later) => grammar::protocols(list@) matches Ok(names) && before + names
                    == wire::contents(alpn@) + later,
                Err(reason) => grammar::protocols(list@) == Err::<Seq<Seq<u8>>, Seq<char>>(reason),
            },
        decreases reader@.len(),
    {
        let ghost rest = reader@;
        let ghost earlier = alpn@;
        let name_len: usize = match reader.read_u8() {
            Ok(value) => value as usize,
            Err(_) => return Err("alpn name length"),
        };
        let name = match reader.take(name_len) {
            Ok(value) => value,
            Err(_) => return Err("alpn name body"),
        };
        assert(name@ == wire::field_content(rest, 1));
        assert(reader@ == wire::after_field(rest, 1));
        alpn.push(name);
        assert(wire::contents(alpn@) == wire::contents(earlier).push(name@));
        assert(forall|later: Seq<Seq<u8>>| #[trigger]
            (wire::contents(earlier) + (seq![name@] + later)) == wire::contents(earlier).push(name@)
                + later);
    }
    assert(wire::contents(alpn@) + Seq::<Seq<u8>>::empty() == wire::contents(alpn@));
    Ok(())
}

/// Reads one extension: takes the server name from a `server_name` extension, where
/// none was `found` before, appends the protocols of an ALPN extension to `alpn`,
/// and passes over any other extension.
fn read_extension<'a>(
    ext_type: u16,
    ext_body: &'a [u8],
    found: Option<&'a str>,
    alpn: &mut Vec<&'a [u8]>,
) -> (result: Result<Option<&'a str>, &'static str>)
    ensures
        match grammar::extension_offer(ext_type as int, ext_body@) {
            Ok(offer) => {
                &&& result matches Ok(name)
                &&& text(name) == found_or(found, grammar::first_text(offer.hosts))
                &&& wire::contents(final(alpn)@) == wire::contents(old(alpn)@) + offer.alpn
            },
            Err(reason) => result matches Err(message) && message@ == reason,
        },
{
    let ghost nothing = Seq::<Seq<u8>>::empty();
    assert(wire::contents(alpn@) + nothing == wire::contents(alpn@));
    match ext_type {
        EXT_SERVER_NAME => {
            let mut reader = Reader::new(ext_body);
            let list_len: usize = match reader.read_u16() {
                Ok(value) => value as usize,
                Err(_) => return Err("sni list length"),
            };
            let list = match reader.take(list_len) {
                Ok(value) => value,
                Err(_) => return Err("sni list body"),
            };
            assert(list@ == wire::field_content(ext_body@, 2));
            read_server_names(list, found)
        },
        EXT_ALPN => {
            let mut reader = Reader::new(ext_body);
            let list_len: usize = match reader.read_u16() {
                Ok(value) => value as usize,
                Err(_) => return Err("alpn list length"),
            };
            let list = match reader.take(list_len) {
                Ok(value) => value,
                Err(_) => return Err("alpn list body"),
            };
            assert(list@ == wire::field_content(ext_body@, 2));
            match read_protocols(list, alpn) {
                Ok(_) => Ok(found),
                Err(message) => Err(message),
            }
        },
        _ => Ok(found),
    }
}

/// Reads a list of extensions into the server name and the protocols that it
/// offers.
fn read_extensions<'a>(extensions: &'a [u8]) -> (result: Result<
    (Option<&'a str>, Vec<&'a [u8]>),
    &'static str,
>)
    ensures
        match grammar::extensions_offer(extensions@) {
            Ok(offer) => {
                &&& result matches Ok((name, alpn))
                &&& text(name) == grammar::first_text(offer.hosts)
                &&& wire::contents(alpn@) == offer.alpn
            },
            Err(reason) => result matches Err(message) && message@ == reason,
        },
{
    let mut server_name: Option<&'a str> = None;
    let mut alpn: Vec<&'a [u8]> = Vec::new();
    let mut reader = Reader::new(extensions);
    assert(forall|later: Seq<Seq<u8>>| #[trigger] (wire::contents(alpn@) + later) == later);
    while !reader.empty()
        invariant
            match grammar::extensions_offer(reader@) {
                Ok(later) => {
                    &&& grammar::extensions_offer(extensions@) matches Ok(offer)
                    &&& grammar::first_text(offer.hosts) == found_or(
                        server_name,
                        grammar::first_text(later.hosts),
                    )
                    &&& offer.alpn == wire::contents(alpn@) + later.alpn
                },
                Err(reason) => grammar::extensions_offer(extensions@) == Err::<
                    grammar::Offer,
                    Seq<char>,
                >(reason),
            },
        decreases reader@.len(),
    {
        let ghost list = reader@;
        let ghost tail = reader@.subrange(2, reader@.len() as int);
        let ghost earlier = wire::contents(alpn@);
        let ext_type: u16 = match reader.read_u16() {
            Ok(value) => value,
            Err(_) => return Err("extension header"),
        };
        let ext_len: usize = match reader.read_u16() {
            Ok(value) => value as usize,
            Err(_) => return Err("extension length"),
        };
        let ext_body = match reader.take(ext_len) {
            Ok(value) => value,
            Err(_) => return Err("extension body"),
        };
        assert(ext_body@ == wire::field_content(tail, 2));
        assert(reader@ == wire::after_field(tail, 2));
        match read_extension(ext_type, ext_body, server_name, &mut alpn) {
            Ok(name) => server_name = name,
            Err(message) => return Err(message),
        }
        proof {
            if let (Ok(first), Ok(later)) = (
                grammar::extension_offer(ext_type as int, ext_body@),
                grammar::extensions_offer(reader@),
            ) {
                grammar::lemma_first_text_of_sum(first.hosts, later.hosts);
                assert(earlier + (first.alpn + later.alpn) == (earlier + first.alpn) + later.alpn);
            }
        }
    }
    assert(wire::contents(alpn@) + Seq::<Seq<u8>>::empty() == wire::contents(alpn@));
    Ok((server_name, alpn))
}

/// Reads the body of a `ClientHello` into the server name and the protocols that it
/// offers.
fn read_body<'a>(body: &'a [u8]) -> (result: Result<
    (Option<&'a str>, Vec<&'a [u8]>),
    &'static str,
>)
    ensures
        match grammar::body_offer(body@) {
            Ok(offer) => {
                &&& result matches Ok((name, alpn))
                &&& text(name) == grammar::first_text(offer.hosts)
                &&& wire::contents(alpn@) == offer.alpn
            },
            Err(reason) => result matches Err(message) && message@ == reason,
        },
{
    let mut reader = Reader::new(body);
    if reader.skip(2 + 32).is_err() {
        return Err("truncated before session_id");
    }
    if reader.skip_var(1).is_err() {
        return Err("truncated session_id");
    }
    if reader.skip_var(2).is_err() {
        return Err("truncated cipher_suites");
    }
    if reader.skip_var(1).is_err() {
        return Err("truncated compression_methods");
    }
    let ghost rest = reader@;
    let extensions_len: usize = match reader.read_u16() {
        Ok(value) => value as usize,
        Err(_) => return Err("missing extensions length"),
    };
    if reader.remaining() < extensions_len {
        return Err("truncated extensions");
    }
    let extensions = match reader.take(extensions_len) {
        Ok(value) => value,
        Err(_) => return Err("extensions take"),
    };
    assert(extensions@ == wire::field_content(rest, 2));
    read_extensions(extensions)
}

/// Reads the `ClientHello` at the start of `buffer`.
pub fn try_parse(buffer: &[u8]) -> (parsed: Parse<'_>)
    ensures
        parsed@ == grammar::outcome(buffer@),
{
    // Handshake header: 1 byte type + 3 bytes length.
    if buffer.len() < 4 {
        return Parse::Incomplete;
    }
    if buffer[0] != HANDSHAKE_TYPE_CLIENT_HELLO {
        return Parse::Error("first handshake message is not ClientHello");
    }
    let high = buffer[1];
    let middle = buffer[2];
    let low = buffer[3];
    let body_len: usize = ((high as usize) << 16) | ((middle as usize) << 8) | (low as usize);
    proof {
        wire::lemma_u24_from_bytes(high, middle, low);
    }
    let total_len: usize = 4 + body_len;
    if buffer.len() < total_len {
        return Parse::Incomplete;
    }
    match read_body(&buffer[4..total_len]) {
        Ok((server_name, alpn)) => Parse::Complete { server_name, alpn, _total_len: total_len },
        Err(message) => Parse::Error(message),
    }
}

} // verus!
