//! How a `ClientHello` is written, as a specification, and the laws that tie
//! writing to reading: what a client puts into its message is what
//! [`crate::parse::try_parse`] gives back.

use crate::grammar;
use crate::grammar::{
    Offer, Outcome, ServerName, EXT_ALPN, EXT_SERVER_NAME, HANDSHAKE_TYPE_CLIENT_HELLO,
};
use crate::parse::{try_parse, Parse};
use crate::wire;
use vstd::prelude::*;
use vstd::utf8;

verus! {

/// `n` as two big-endian bytes.
pub open spec fn u16_bytes(n: int) -> Seq<u8> {
    seq![(n / 0x100) as u8, (n % 0x100) as u8]
}

/// `n` as three big-endian bytes.
pub open spec fn u24_bytes(n: int) -> Seq<u8> {
    seq![(n / 0x1_0000) as u8, (n / 0x100 % 0x100) as u8, (n % 0x100) as u8]
}

/// `content` behind its length in `width` bytes, one or two.
pub open spec fn field(width: int, content: Seq<u8>) -> Seq<u8> {
    if width == 1 {
        seq![content.len() as u8] + content
    } else {
        u16_bytes(content.len() as int) + content
    }
}

/// Whether the length of `content` can be written in `width` bytes.
pub open spec fn fits(width: int, content: Seq<u8>) -> bool {
    if width == 1 {
        content.len() < 0x100
    } else {
        content.len() < 0x1_0000
    }
}

/// The entries of a server name list, written one after the other.
pub open spec fn name_list(names: Seq<ServerName>) -> Seq<u8>
    decreases names.len(),
{
    if names.len() == 0 {
        Seq::empty()
    } else {
        seq![names[0].name_type] + field(2, names[0].name) + name_list(names.drop_first())
    }
}

/// The entries of a protocol name list, written one after the other.
pub open spec fn protocol_list(names: Seq<Seq<u8>>) -> Seq<u8>
    decreases names.len(),
{
    if names.len() == 0 {
        Seq::empty()
    } else {
        field(1, names[0]) + protocol_list(names.drop_first())
    }
}

/// An extension of a `ClientHello`.
pub enum Extension {
    /// The names of the server that the client wants.
    ServerName(Seq<ServerName>),
    /// The application protocols that the client offers.
    Alpn(Seq<Seq<u8>>),
    /// Any other extension, by type and body.
    Other(u16, Seq<u8>),
}

impl Extension {
    /// The type number of the extension.
    pub open spec fn ext_type(self) -> int {
        match self {
            Extension::ServerName(_) => EXT_SERVER_NAME as int,
            Extension::Alpn(_) => EXT_ALPN as int,
            Extension::Other(ext_type, _) => ext_type as int,
        }
    }

    /// The body of the extension.
    pub open spec fn body(self) -> Seq<u8> {
        match self {
            Extension::ServerName(names) => field(2, name_list(names)),
            Extension::Alpn(names) => field(2, protocol_list(names)),
            Extension::Other(_, body) => body,
        }
    }

    /// The extension as it is written: its type, then its body as a field.
    pub open spec fn written(self) -> Seq<u8> {
        u16_bytes(self.ext_type()) + field(2, self.body())
    }

    /// What the extension contributes.
    pub open spec fn offer(self) -> Offer {
        match self {
            Extension::ServerName(names) => Offer {
                hosts: grammar::host_names(names),
                alpn: Seq::empty(),
            },
            Extension::Alpn(names) => Offer { hosts: Seq::empty(), alpn: names },
            Extension::Other(_, _) => Offer::none(),
        }
    }

    /// Whether every length can be written, and the type of another extension is
    /// none of the two that are read.
    pub open spec fn well_formed(self) -> bool {
        &&& fits(2, self.body())
        &&& match self {
            Extension::ServerName(names) => {
                &&& fits(2, name_list(names))
                &&& forall|i: int| 0 <= i < names.len() ==> fits(2, (#[trigger] names[i]).name)
            },
            Extension::Alpn(names) => {
                &&& fits(2, protocol_list(names))
                &&& forall|i: int| 0 <= i < names.len() ==> fits(1, #[trigger] names[i])
            },
            Extension::Other(ext_type, _) => ext_type != EXT_SERVER_NAME && ext_type != EXT_ALPN,
        }
    }
}

/// Extensions, written one after the other.
pub open spec fn extension_list(extensions: Seq<Extension>) -> Seq<u8>
    decreases extensions.len(),
{
    if extensions.len() == 0 {
        Seq::empty()
    } else {
        extensions[0].written() + extension_list(extensions.drop_first())
    }
}

/// What extensions contribute, one after the other.
pub open spec fn offer_of(extensions: Seq<Extension>) -> Offer
    decreases extensions.len(),
{
    if extensions.len() == 0 {
        Offer::none()
    } else {
        extensions[0].offer().then_offer(offer_of(extensions.drop_first()))
    }
}

/// A body as the handshake message of a `ClientHello`: type, length, body.
pub open spec fn framed(body: Seq<u8>) -> Seq<u8> {
    seq![HANDSHAKE_TYPE_CLIENT_HELLO] + u24_bytes(body.len() as int) + body
}

/// A `ClientHello`, field by field.
pub struct ClientHello {
    /// `legacy_version` and `random`.
    pub fixed: Seq<u8>,
    pub session_id: Seq<u8>,
    pub cipher_suites: Seq<u8>,
    pub compression_methods: Seq<u8>,
    pub extensions: Seq<Extension>,
}

impl ClientHello {
    /// The fields as they are written.
    pub open spec fn body(self) -> Seq<u8> {
        self.fixed + field(1, self.session_id) + field(2, self.cipher_suites) + field(
            1,
            self.compression_methods,
        ) + field(2, extension_list(self.extensions))
    }

    /// The handshake message.
    pub open spec fn message(self) -> Seq<u8> {
        framed(self.body())
    }

    /// Whether every length can be written.
    pub open spec fn well_formed(self) -> bool {
        &&& self.fixed.len() == 34
        &&& fits(1, self.session_id)
        &&& fits(2, self.cipher_suites)
        &&& fits(1, self.compression_methods)
        &&& fits(2, extension_list(self.extensions))
        &&& forall|i: int|
            0 <= i < self.extensions.len() ==> (#[trigger] self.extensions[i]).well_formed()
    }
}

/// A written field is read back, whatever follows it.
pub proof fn law_field_is_read_back(width: int, content: Seq<u8>, rest: Seq<u8>)
    requires
        width == 1 || width == 2,
        fits(width, content),
    ensures
        wire::has_field(field(width, content) + rest, width),
        wire::field_content(field(width, content) + rest, width) == content,
        wire::after_field(field(width, content) + rest, width) == rest,
        field(width, content).len() == width + content.len(),
{
    let s = field(width, content) + rest;
    assert(wire::announced(s, width) == content.len());
    assert(wire::field_content(s, width) == content);
    assert(wire::after_field(s, width) == rest);
}

/// A written server name list is read back.
pub proof fn law_server_names_are_read_back(names: Seq<ServerName>)
    requires
        forall|i: int| 0 <= i < names.len() ==> fits(2, (#[trigger] names[i]).name),
    ensures
        grammar::server_names(name_list(names)) == Ok::<Seq<ServerName>, Seq<char>>(names),
    decreases names.len(),
{
    if names.len() == 0 {
        assert(names == Seq::<ServerName>::empty());
    } else {
        let later = names.drop_first();
        let list = name_list(names);
        law_server_names_are_read_back(later);
        law_field_is_read_back(2, names[0].name, name_list(later));
        assert(list.subrange(1, list.len() as int) == field(2, names[0].name) + name_list(later));
        assert(names == seq![names[0]] + later);
    }
}

/// A written protocol name list is read back.
pub proof fn law_protocols_are_read_back(names: Seq<Seq<u8>>)
    requires
        forall|i: int| 0 <= i < names.len() ==> fits(1, #[trigger] names[i]),
    ensures
        grammar::protocols(protocol_list(names)) == Ok::<Seq<Seq<u8>>, Seq<char>>(names),
    decreases names.len(),
{
    if names.len() == 0 {
        assert(names == Seq::<Seq<u8>>::empty());
    } else {
        let later = names.drop_first();
        law_protocols_are_read_back(later);
        law_field_is_read_back(1, names[0], protocol_list(later));
        assert(names == seq![names[0]] + later);
    }
}

/// A written extension contributes what it holds.
pub proof fn law_extension_is_read_back(extension: Extension)
    requires
        extension.well_formed(),
    ensures
        grammar::extension_offer(extension.ext_type(), extension.body()) == Ok::<Offer, Seq<char>>(
            extension.offer(),
        ),
{
    let nothing = Seq::<u8>::empty();
    match extension {
        Extension::ServerName(names) => {
            let list = name_list(names);
            law_field_is_read_back(2, list, nothing);
            assert(field(2, list) + nothing == field(2, list));
            law_server_names_are_read_back(names);
        },
        Extension::Alpn(names) => {
            let list = protocol_list(names);
            law_field_is_read_back(2, list, nothing);
            assert(field(2, list) + nothing == field(2, list));
            law_protocols_are_read_back(names);
        },
        Extension::Other(_, _) => {},
    }
}

/// An extension in front of a list: what it holds comes before what the list gives,
/// and a fault of the list stays a fault.
pub proof fn law_extension_in_front(extension: Extension, list: Seq<u8>)
    requires
        extension.well_formed(),
    ensures
        grammar::extensions_offer(extension.written() + list) == match grammar::extensions_offer(
            list,
        ) {
            Ok(later) => Ok(extension.offer().then_offer(later)),
            Err(reason) => Err(reason),
        },
{
    let whole = extension.written() + list;
    law_extension_is_read_back(extension);
    law_field_is_read_back(2, extension.body(), list);
    assert(whole.subrange(2, whole.len() as int) == field(2, extension.body()) + list);
    assert(wire::u16_at(whole, 0) == extension.ext_type());
}

/// An extension of another type changes nothing.
pub proof fn law_other_extension_is_ignored(ext_type: u16, body: Seq<u8>, list: Seq<u8>)
    requires
        ext_type != EXT_SERVER_NAME,
        ext_type != EXT_ALPN,
        fits(2, body),
    ensures
        grammar::extensions_offer(Extension::Other(ext_type, body).written() + list)
            == grammar::extensions_offer(list),
{
    law_extension_in_front(Extension::Other(ext_type, body), list);
    if let Ok(later) = grammar::extensions_offer(list) {
        assert(Offer::none().then_offer(later).hosts == later.hosts);
        assert(Offer::none().then_offer(later).alpn == later.alpn);
    }
}

/// Written extensions contribute what they hold, in order.
pub proof fn law_extensions_are_read_back(extensions: Seq<Extension>)
    requires
        forall|i: int| 0 <= i < extensions.len() ==> (#[trigger] extensions[i]).well_formed(),
    ensures
        grammar::extensions_offer(extension_list(extensions)) == Ok::<Offer, Seq<char>>(
            offer_of(extensions),
        ),
    decreases extensions.len(),
{
    if extensions.len() > 0 {
        let later = extensions.drop_first();
        law_extensions_are_read_back(later);
        law_extension_in_front(extensions[0], extension_list(later));
    }
}

/// The written body of a `ClientHello` contributes what its extensions hold, and its
/// length can be written.
pub proof fn law_body_is_read_back(hello: ClientHello)
    requires
        hello.well_formed(),
    ensures
        grammar::body_offer(hello.body()) == Ok::<Offer, Seq<char>>(offer_of(hello.extensions)),
        hello.body().len() < 0x100_0000,
{
    let nothing = Seq::<u8>::empty();
    let extensions = field(2, extension_list(hello.extensions));
    let compression_methods = field(1, hello.compression_methods) + extensions;
    let cipher_suites = field(2, hello.cipher_suites) + compression_methods;
    let session_id = field(1, hello.session_id) + cipher_suites;
    let body = hello.body();
    assert(extensions + nothing == extensions);
    assert(body == hello.fixed + session_id);
    assert(body.subrange(34, body.len() as int) == session_id);
    law_field_is_read_back(1, hello.session_id, cipher_suites);
    law_field_is_read_back(2, hello.cipher_suites, compression_methods);
    law_field_is_read_back(1, hello.compression_methods, extensions);
    law_field_is_read_back(2, extension_list(hello.extensions), nothing);
    law_extensions_are_read_back(hello.extensions);
}

/// A framed body is judged by its content alone, whatever follows the message.
pub proof fn law_framed_body_is_read_back(body: Seq<u8>, rest: Seq<u8>)
    requires
        body.len() < 0x100_0000,
    ensures
        framed(body).len() == 4 + body.len(),
        grammar::outcome(framed(body) + rest) == match grammar::body_offer(body) {
            Ok(offer) => Outcome::Complete {
                server_name: grammar::first_text(offer.hosts),
                alpn: offer.alpn,
                total_len: 4 + body.len() as int,
            },
            Err(reason) => Outcome::Error(reason),
        },
{
    let buffer = framed(body) + rest;
    assert(wire::u24_at(buffer, 1) == body.len());
    assert(buffer.subrange(4, 4 + body.len() as int) == body);
}

/// What a client writes is what the parser gives back, whatever follows the
/// message: the first host name in UTF-8, every protocol in the order in which the
/// client offers it, and the length of the message.
pub proof fn law_client_hello_is_read_back(hello: ClientHello, rest: Seq<u8>)
    requires
        hello.well_formed(),
    ensures
        grammar::outcome(hello.message() + rest) == (Outcome::Complete {
            server_name: grammar::first_text(offer_of(hello.extensions).hosts),
            alpn: offer_of(hello.extensions).alpn,
            total_len: hello.message().len() as int,
        }),
{
    law_body_is_read_back(hello);
    law_framed_body_is_read_back(hello.body(), rest);
}

/// A client that asks for a host by name is heard: the parser gives the name that the
/// client puts first.
pub proof fn law_requested_host_is_found(hello: ClientHello, host: Seq<char>, rest: Seq<u8>)
    requires
        hello.well_formed(),
        offer_of(hello.extensions).hosts.len() > 0,
        offer_of(hello.extensions).hosts[0] == utf8::encode_utf8(host),
    ensures
        grammar::outcome(hello.message() + rest) matches Outcome::Complete { server_name, .. }
            && server_name == Some(host),
{
    law_client_hello_is_read_back(hello, rest);
    utf8::encode_utf8_valid_utf8(host);
    utf8::encode_utf8_decode_utf8(host);
}

/// Extensions without a server name have no host names.
proof fn lemma_no_hosts(extensions: Seq<Extension>)
    requires
        forall|i: int| 0 <= i < extensions.len() ==> !((#[trigger] extensions[i]) is ServerName),
    ensures
        offer_of(extensions).hosts == Seq::<Seq<u8>>::empty(),
    decreases extensions.len(),
{
    if extensions.len() > 0 {
        assert(!(extensions[0] is ServerName));
        lemma_no_hosts(extensions.drop_first());
        assert(extensions[0].offer().hosts == Seq::<Seq<u8>>::empty());
    }
}

/// The only server name among extensions is their only host name.
proof fn lemma_only_host(extensions: Seq<Extension>, at: int, name: Seq<u8>)
    requires
        0 <= at < extensions.len(),
        extensions[at] == Extension::ServerName(
            seq![ServerName { name_type: grammar::SNI_NAME_TYPE_HOST, name }],
        ),
        forall|i: int|
            0 <= i < extensions.len() && i != at ==> !((#[trigger] extensions[i]) is ServerName),
    ensures
        offer_of(extensions).hosts == seq![name],
    decreases extensions.len(),
{
    let later = extensions.drop_first();
    if at == 0 {
        assert forall|i: int| 0 <= i < later.len() implies !((
        #[trigger] later[i]) is ServerName) by {
            assert(later[i] == extensions[i + 1]);
        }
        lemma_no_hosts(later);
        let entry = ServerName { name_type: grammar::SNI_NAME_TYPE_HOST, name };
        assert(seq![entry].drop_first() == Seq::<ServerName>::empty());
        assert(grammar::host_names(seq![entry].drop_first()) == Seq::<Seq<u8>>::empty());
        assert(grammar::host_names(seq![entry]) == seq![name]);
        assert(offer_of(extensions).hosts == seq![name]);
    } else {
        assert(!(extensions[0] is ServerName));
        assert(later[at - 1] == extensions[at]);
        assert forall|i: int| 0 <= i < later.len() && i != at - 1 implies !((
        #[trigger] later[i]) is ServerName) by {
            assert(later[i] == extensions[i + 1]);
        }
        lemma_only_host(later, at - 1, name);
        assert(extensions[0].offer().hosts == Seq::<Seq<u8>>::empty());
        assert(offer_of(extensions).hosts == seq![name]);
    }
}

/// A client that asks for one host is heard, whatever the length of the name, wherever the
/// extension stands and whatever other extensions there are: that host is what the parser
/// gives.
pub proof fn law_only_host_is_found(
    buffer: &[u8],
    parsed: Parse<'_>,
    hello: ClientHello,
    rest: Seq<u8>,
    at: int,
    host: Seq<char>,
)
    requires
        call_ensures(try_parse, (buffer,), parsed),
        buffer@ == hello.message() + rest,
        hello.well_formed(),
        0 <= at < hello.extensions.len(),
        hello.extensions[at] == Extension::ServerName(
            seq![ServerName { name_type: 0, name: utf8::encode_utf8(host) }],
        ),
        forall|i: int|
            0 <= i < hello.extensions.len() && i != at ==> !((
            #[trigger] hello.extensions[i]) is ServerName),
    ensures
        parsed matches Parse::Complete { server_name, .. } && server_name matches Some(name)
            && name@ == host,
{
    assert(parsed@ == grammar::outcome(buffer@));
    lemma_only_host(hello.extensions, at, utf8::encode_utf8(host));
    law_requested_host_is_found(hello, host, rest);
}

} // verus!
