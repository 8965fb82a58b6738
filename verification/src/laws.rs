//! Laws of the parser: what holds of [`grammar::outcome`], and so of
//! [`crate::parse::try_parse`], for every buffer.

use crate::grammar;
use crate::grammar::{Offer, Outcome, ServerName, HANDSHAKE_TYPE_CLIENT_HELLO};
use crate::wire;
use vstd::prelude::*;
use vstd::utf8;

verus! {

/// A decision is final: once a buffer is more than incomplete, what arrives later
/// changes nothing. A message that was read stays read, and one that was refused is
/// refused again for the same reason.
pub proof fn law_decision_is_final(buffer: Seq<u8>, more: Seq<u8>)
    requires
        !(grammar::outcome(buffer) is Incomplete),
    ensures
        grammar::outcome(buffer + more) == grammar::outcome(buffer),
{
    let total_len = 4 + wire::u24_at(buffer, 1);
    assert(wire::u24_at(buffer + more, 1) == wire::u24_at(buffer, 1));
    if buffer[0] == HANDSHAKE_TYPE_CLIENT_HELLO {
        assert((buffer + more).subrange(4, total_len) == buffer.subrange(4, total_len));
    }
}

/// Nothing is decided early: of a message of type `ClientHello`, every part that
/// lacks a byte is incomplete.
pub proof fn law_incomplete_until_whole(buffer: Seq<u8>, len: int)
    requires
        4 <= buffer.len(),
        buffer[0] == HANDSHAKE_TYPE_CLIENT_HELLO,
        0 <= len <= buffer.len(),
        len < 4 + wire::u24_at(buffer, 1),
    ensures
        grammar::outcome(buffer.subrange(0, len)) is Incomplete,
{
}

/// A message that arrives in two parts is incomplete while the second is missing,
/// wherever it was split.
pub proof fn law_split_message(first: Seq<u8>, second: Seq<u8>)
    requires
        grammar::outcome(first + second) matches Outcome::Complete { total_len, .. } && total_len
            > first.len(),
    ensures
        grammar::outcome(first) is Incomplete,
{
    assert((first + second).subrange(0, first.len() as int) == first);
    law_incomplete_until_whole(first + second, first.len() as int);
}

/// The message alone decides: its length lies within the buffer, and the bytes after
/// it could be left out.
pub proof fn law_message_alone_decides(buffer: Seq<u8>)
    ensures
        grammar::outcome(buffer) matches Outcome::Complete { total_len, .. } ==> {
            &&& 4 <= total_len <= buffer.len()
            &&& grammar::outcome(buffer.subrange(0, total_len)) == grammar::outcome(buffer)
        },
{
    if let Outcome::Complete { total_len, .. } = grammar::outcome(buffer) {
        let message = buffer.subrange(0, total_len);
        assert(wire::u24_at(message, 1) == wire::u24_at(buffer, 1));
        assert(message.subrange(4, total_len) == buffer.subrange(4, total_len));
    }
}

/// The first host name in UTF-8 wins: `first_text` gives a name exactly where one
/// decodes, and it is that of the least position.
pub proof fn law_first_text_wins(names: Seq<Seq<u8>>)
    ensures
        match grammar::first_text(names) {
            Some(text) => exists|i: int|
                #![trigger names[i]]
                {
                    &&& 0 <= i < names.len()
                    &&& utf8::valid_utf8(names[i])
                    &&& text == utf8::decode_utf8(names[i])
                    &&& forall|j: int| 0 <= j < i ==> !utf8::valid_utf8(#[trigger] names[j])
                },
            None => forall|j: int|
                0 <= j < names.len() ==> !utf8::valid_utf8(#[trigger] names[j]),
        },
    decreases names.len(),
{
    if names.len() > 0 && !utf8::valid_utf8(names[0]) {
        let later = names.drop_first();
        law_first_text_wins(later);
        assert(forall|j: int| 0 < j < names.len() ==> #[trigger] names[j] == later[j - 1]);
        if let Some(text) = grammar::first_text(names) {
            let i = choose|i: int|
                #![trigger later[i]]
                {
                    &&& 0 <= i < later.len()
                    &&& utf8::valid_utf8(later[i])
                    &&& text == utf8::decode_utf8(later[i])
                    &&& forall|j: int| 0 <= j < i ==> !utf8::valid_utf8(#[trigger] later[j])
                };
            assert(names[i + 1] == later[i]);
        }
    }
}

/// Whether `part` stands in `whole` in one piece.
pub open spec fn stands_in(part: Seq<u8>, whole: Seq<u8>) -> bool {
    exists|at: int|
        0 <= at && at + part.len() <= whole.len() && part == #[trigger] whole.subrange(
            at,
            at + part.len() as int,
        )
}

/// A subrange stands in the whole, and so does what stands in the subrange.
proof fn lemma_part_of_subrange(part: Seq<u8>, whole: Seq<u8>, from: int, to: int)
    requires
        0 <= from <= to <= whole.len(),
        stands_in(part, whole.subrange(from, to)),
    ensures
        stands_in(part, whole),
{
    let inner = whole.subrange(from, to);
    let at = choose|at: int|
        0 <= at && at + part.len() <= inner.len() && part == #[trigger] inner.subrange(
            at,
            at + part.len() as int,
        );
    assert(part == whole.subrange(from + at, from + at + part.len() as int));
}

/// The content of a field stands in the bytes that it was read from.
proof fn lemma_content_stands_in(s: Seq<u8>, width: int)
    requires
        width == 1 || width == 2,
        wire::has_field(s, width),
    ensures
        stands_in(wire::field_content(s, width), s),
{
    let content = wire::field_content(s, width);
    assert(content == s.subrange(width, width + content.len() as int));
}

/// Every name of a server name list stands in the list.
proof fn lemma_names_stand_in(list: Seq<u8>)
    ensures
        grammar::server_names(list) matches Ok(names) ==> forall|i: int|
            0 <= i < names.len() ==> stands_in((#[trigger] names[i]).name, list),
    decreases list.len(),
{
    if let Ok(names) = grammar::server_names(list) {
        if list.len() > 0 {
            let tail = list.subrange(1, list.len() as int);
            let rest = wire::after_field(tail, 2);
            lemma_content_stands_in(tail, 2);
            lemma_part_of_subrange(names[0].name, list, 1, list.len() as int);
            lemma_names_stand_in(rest);
            let later = grammar::server_names(rest)->Ok_0;
            assert forall|i: int| 0 <= i < names.len() implies stands_in(
                (#[trigger] names[i]).name,
                list,
            ) by {
                if i > 0 {
                    assert(names[i] == later[i - 1]);
                    lemma_part_of_subrange(
                        names[i].name,
                        tail,
                        2 + wire::announced(tail, 2),
                        tail.len() as int,
                    );
                    lemma_part_of_subrange(names[i].name, list, 1, list.len() as int);
                }
            }
        }
    }
}

/// Every host name is a name of the list that it was picked from.
proof fn lemma_hosts_are_names(names: Seq<ServerName>, whole: Seq<u8>)
    requires
        forall|i: int| 0 <= i < names.len() ==> stands_in((#[trigger] names[i]).name, whole),
    ensures
        forall|i: int|
            0 <= i < grammar::host_names(names).len() ==> stands_in(
                #[trigger] grammar::host_names(names)[i],
                whole,
            ),
    decreases names.len(),
{
    if names.len() > 0 {
        let later = names.drop_first();
        assert(stands_in(names[0].name, whole));
        assert forall|i: int| 0 <= i < later.len() implies stands_in(
            (#[trigger] later[i]).name,
            whole,
        ) by {
            assert(later[i] == names[i + 1]);
        }
        lemma_hosts_are_names(later, whole);
        let hosts = grammar::host_names(names);
        assert forall|i: int| 0 <= i < hosts.len() implies stands_in(#[trigger] hosts[i], whole) by {
            if names[0].name_type == grammar::SNI_NAME_TYPE_HOST {
                if i > 0 {
                    assert(hosts[i] == grammar::host_names(later)[i - 1]);
                }
            } else {
                assert(hosts[i] == grammar::host_names(later)[i]);
            }
        }
    }
}

/// Every protocol of a protocol name list stands in the list.
proof fn lemma_protocols_stand_in(list: Seq<u8>)
    ensures
        grammar::protocols(list) matches Ok(names) ==> forall|i: int|
            0 <= i < names.len() ==> stands_in(#[trigger] names[i], list),
    decreases list.len(),
{
    if let Ok(names) = grammar::protocols(list) {
        if list.len() > 0 {
            let rest = wire::after_field(list, 1);
            lemma_content_stands_in(list, 1);
            lemma_protocols_stand_in(rest);
            let later = grammar::protocols(rest)->Ok_0;
            assert forall|i: int| 0 <= i < names.len() implies stands_in(
                #[trigger] names[i],
                list,
            ) by {
                if i > 0 {
                    assert(names[i] == later[i - 1]);
                    lemma_part_of_subrange(
                        names[i],
                        list,
                        1 + wire::announced(list, 1),
                        list.len() as int,
                    );
                }
            }
        }
    }
}

/// Whether every host name and every protocol of an offer stands in `whole`.
spec fn offer_stands_in(offer: Offer, whole: Seq<u8>) -> bool {
    &&& forall|i: int| 0 <= i < offer.hosts.len() ==> stands_in(#[trigger] offer.hosts[i], whole)
    &&& forall|i: int| 0 <= i < offer.alpn.len() ==> stands_in(#[trigger] offer.alpn[i], whole)
}

/// An offer that stands in a subrange stands in the whole.
proof fn lemma_offer_of_subrange(offer: Offer, whole: Seq<u8>, from: int, to: int)
    requires
        0 <= from <= to <= whole.len(),
        offer_stands_in(offer, whole.subrange(from, to)),
    ensures
        offer_stands_in(offer, whole),
{
    assert forall|i: int| 0 <= i < offer.hosts.len() implies stands_in(
        #[trigger] offer.hosts[i],
        whole,
    ) by {
        lemma_part_of_subrange(offer.hosts[i], whole, from, to);
    }
    assert forall|i: int| 0 <= i < offer.alpn.len() implies stands_in(
        #[trigger] offer.alpn[i],
        whole,
    ) by {
        lemma_part_of_subrange(offer.alpn[i], whole, from, to);
    }
}

/// What an extension contributes stands in its body.
proof fn lemma_extension_stands_in(ext_type: int, body: Seq<u8>)
    ensures
        grammar::extension_offer(ext_type, body) matches Ok(offer) ==> offer_stands_in(offer, body),
{
    if let Ok(offer) = grammar::extension_offer(ext_type, body) {
        let list = wire::field_content(body, 2);
        if ext_type == grammar::EXT_SERVER_NAME {
            lemma_names_stand_in(list);
            lemma_hosts_are_names(grammar::server_names(list)->Ok_0, list);
            lemma_offer_of_subrange(offer, body, 2, 2 + wire::announced(body, 2));
        } else if ext_type == grammar::EXT_ALPN {
            lemma_protocols_stand_in(list);
            lemma_offer_of_subrange(offer, body, 2, 2 + wire::announced(body, 2));
        }
    }
}

/// What a list of extensions contributes stands in the list.
proof fn lemma_extensions_stand_in(list: Seq<u8>)
    ensures
        grammar::extensions_offer(list) matches Ok(offer) ==> offer_stands_in(offer, list),
    decreases list.len(),
{
    if let Ok(offer) = grammar::extensions_offer(list) {
        if list.len() > 0 {
            let tail = list.subrange(2, list.len() as int);
            let body = wire::field_content(tail, 2);
            let rest = wire::after_field(tail, 2);
            let end = 2 + wire::announced(tail, 2);
            let first = grammar::extension_offer(wire::u16_at(list, 0), body)->Ok_0;
            let later = grammar::extensions_offer(rest)->Ok_0;
            lemma_extension_stands_in(wire::u16_at(list, 0), body);
            lemma_offer_of_subrange(first, tail, 2, end);
            lemma_extensions_stand_in(rest);
            lemma_offer_of_subrange(later, tail, end, tail.len() as int);
            assert(offer_stands_in(first.then_offer(later), tail));
            lemma_offer_of_subrange(offer, list, 2, list.len() as int);
        }
    }
}

/// Nothing is made up: the server name, in UTF-8, and every protocol stand in the
/// buffer in one piece.
pub proof fn law_names_stand_in_buffer(buffer: Seq<u8>)
    ensures
        grammar::outcome(buffer) matches Outcome::Complete { server_name, alpn, .. } ==> {
            &&& server_name matches Some(name) ==> stands_in(utf8::encode_utf8(name), buffer)
            &&& forall|i: int| 0 <= i < alpn.len() ==> stands_in(#[trigger] alpn[i], buffer)
        },
{
    if let Outcome::Complete { server_name, total_len, .. } = grammar::outcome(buffer) {
        let body = buffer.subrange(4, total_len);
        let session_id = body.subrange(34, body.len() as int);
        let cipher_suites = wire::after_field(session_id, 1);
        let compression_methods = wire::after_field(cipher_suites, 2);
        let extensions = wire::after_field(compression_methods, 1);
        let offer = grammar::body_offer(body)->Ok_0;
        lemma_extensions_stand_in(wire::field_content(extensions, 2));
        lemma_offer_of_subrange(offer, extensions, 2, 2 + wire::announced(extensions, 2));
        lemma_offer_of_subrange(
            offer,
            compression_methods,
            1 + wire::announced(compression_methods, 1),
            compression_methods.len() as int,
        );
        lemma_offer_of_subrange(
            offer,
            cipher_suites,
            2 + wire::announced(cipher_suites, 2),
            cipher_suites.len() as int,
        );
        lemma_offer_of_subrange(
            offer,
            session_id,
            1 + wire::announced(session_id, 1),
            session_id.len() as int,
        );
        lemma_offer_of_subrange(offer, body, 34, body.len() as int);
        lemma_offer_of_subrange(offer, buffer, 4, total_len);
        law_first_text_wins(offer.hosts);
        if let Some(name) = server_name {
            let i = choose|i: int|
                #![trigger offer.hosts[i]]
                {
                    &&& 0 <= i < offer.hosts.len()
                    &&& utf8::valid_utf8(offer.hosts[i])
                    &&& name == utf8::decode_utf8(offer.hosts[i])
                    &&& forall|j: int| 0 <= j < i ==> !utf8::valid_utf8(#[trigger] offer.hosts[j])
                };
            utf8::decode_utf8_encode_utf8(offer.hosts[i]);
        }
    }
}

} // verus!
