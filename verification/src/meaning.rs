//! What [`try_parse`] gives, said byte by byte.
//!
//! Each law speaks of a call of the parser: of the bytes that went in, by their
//! positions, and of the fields of what came out. Lists are written out on the spot,
//! as their entries in a row.

use crate::encoding;
use crate::grammar;
use crate::grammar::{Offer, ServerName};
use crate::laws;
use crate::parse::{try_parse, Parse};
use crate::wire;
use vstd::prelude::*;
use vstd::utf8;

verus! {

/// Fewer than four bytes are incomplete, and a first byte other than 1 is refused as
/// soon as there are four.
pub proof fn law_header(buffer: &[u8], parsed: Parse<'_>)
    requires
        call_ensures(try_parse, (buffer,), parsed),
    ensures
        buffer@.len() < 4 ==> parsed is Incomplete,
        buffer@.len() >= 4 && buffer@[0] != 1 ==> (parsed matches Parse::Error(reason) && reason@
            == "first handshake message is not ClientHello"@),
{
}

/// The fields before the extensions are checked in their order, each by the length in
/// front of it, up to the end that the header announces; the first that is cut short
/// is named. The message ends where the header says, whatever comes after.
pub proof fn law_fields_before_extensions(buffer: &[u8], parsed: Parse<'_>)
    requires
        call_ensures(try_parse, (buffer,), parsed),
        buffer@.len() >= 4,
        buffer@[0] == 1,
    ensures
        ({
            let b = buffer@;
            let end = 4 + 0x1_0000 * b[1] + 0x100 * b[2] + b[3];
            let suites = 39 + b[38];
            let methods = suites + 2 + 0x100 * b[suites] + b[suites + 1];
            let extensions = methods + 1 + b[methods];
            let stop = extensions + 2 + 0x100 * b[extensions] + b[extensions + 1];
            if b.len() < end {
                parsed is Incomplete
            } else if end < 38 {
                parsed matches Parse::Error(reason) && reason@ == "truncated before session_id"@
            } else if end < 39 || end < suites {
                parsed matches Parse::Error(reason) && reason@ == "truncated session_id"@
            } else if end < suites + 2 || end < methods {
                parsed matches Parse::Error(reason) && reason@ == "truncated cipher_suites"@
            } else if end < methods + 1 || end < extensions {
                parsed matches Parse::Error(reason) && reason@ == "truncated compression_methods"@
            } else if end < extensions + 2 {
                parsed matches Parse::Error(reason) && reason@ == "missing extensions length"@
            } else if end < stop {
                parsed matches Parse::Error(reason) && reason@ == "truncated extensions"@
            } else {
                &&& !(parsed is Incomplete)
                &&& parsed matches Parse::Complete { _total_len, .. } ==> _total_len == end
            }
        }),
{
    let b = buffer@;
    let end = 4 + 0x1_0000 * b[1] + 0x100 * b[2] + b[3];
    if b.len() >= end && end >= 38 {
        lemma_fields_by_position(b, end);
    }
}

/// The fields of a whole body, found by their positions in the buffer.
proof fn lemma_fields_by_position(b: Seq<u8>, end: int)
    requires
        end == 4 + 0x1_0000 * b[1] + 0x100 * b[2] + b[3],
        38 <= end <= b.len(),
    ensures
        ({
            let body = b.subrange(4, end);
            let suites = 39 + b[38];
            let methods = suites + 2 + 0x100 * b[suites] + b[suites + 1];
            let extensions = methods + 1 + b[methods];
            let stop = extensions + 2 + 0x100 * b[extensions] + b[extensions + 1];
            grammar::body_offer(body) == if end < 39 || end < suites {
                Err("truncated session_id"@)
            } else if end < suites + 2 || end < methods {
                Err("truncated cipher_suites"@)
            } else if end < methods + 1 || end < extensions {
                Err("truncated compression_methods"@)
            } else if end < extensions + 2 {
                Err("missing extensions length"@)
            } else if end < stop {
                Err("truncated extensions"@)
            } else {
                grammar::extensions_offer(b.subrange(extensions + 2, stop))
            }
        }),
{
    let body = b.subrange(4, end);
    let suites = 39 + b[38];
    let methods = suites + 2 + 0x100 * b[suites] + b[suites + 1];
    let extensions = methods + 1 + b[methods];
    let stop = extensions + 2 + 0x100 * b[extensions] + b[extensions + 1];
    let s0 = body.subrange(34, body.len() as int);
    assert(s0 == b.subrange(38, end));
    if end >= 39 && end >= suites {
        let s1 = wire::after_field(s0, 1);
        assert(s1 == b.subrange(suites, end));
        if end >= suites + 2 && end >= methods {
            let s2 = wire::after_field(s1, 2);
            assert(s2 == b.subrange(methods, end));
            if end >= methods + 1 && end >= extensions {
                let s3 = wire::after_field(s2, 1);
                assert(s3 == b.subrange(extensions, end));
                if end >= extensions + 2 && end >= stop {
                    assert(wire::field_content(s3, 2) == b.subrange(extensions + 2, stop));
                }
            }
        }
    }
}

/// An extension, with what its body is made of: for a `server_name` extension the
/// entries of its list, each a type and a name; for an ALPN extension the protocols of
/// its list; and what follows the list.
pub struct Described {
    pub ext_type: u16,
    pub body: Seq<u8>,
    pub names: Seq<(u8, Seq<u8>)>,
    pub protocols: Seq<Seq<u8>>,
    pub rest: Seq<u8>,
}

/// Server name entries in a row.
spec fn names_in_a_row(names: Seq<(u8, Seq<u8>)>) -> Seq<u8> {
    names.map_values(
        |n: (u8, Seq<u8>)|
            seq![n.0, (n.1.len() / 0x100) as u8, (n.1.len() % 0x100) as u8] + n.1,
    ).flatten()
}

/// Protocols in a row.
spec fn protocols_in_a_row(protocols: Seq<Seq<u8>>) -> Seq<u8> {
    protocols.map_values(|p: Seq<u8>| seq![p.len() as u8] + p).flatten()
}

/// Extensions in a row.
spec fn extensions_in_a_row(extensions: Seq<Described>) -> Seq<u8> {
    extensions.map_values(
        |e: Described|
            seq![
                (e.ext_type / 0x100) as u8,
                (e.ext_type % 0x100) as u8,
                (e.body.len() / 0x100) as u8,
                (e.body.len() % 0x100) as u8,
            ] + e.body,
    ).flatten()
}

/// The entries as the grammar names them.
spec fn entries(names: Seq<(u8, Seq<u8>)>) -> Seq<ServerName> {
    names.map_values(|n: (u8, Seq<u8>)| ServerName { name_type: n.0, name: n.1 })
}

/// Whether the body is made of what is said.
spec fn fits(e: Described) -> bool {
    &&& e.body.len() < 0x1_0000
    &&& e.ext_type == 0 ==> {
        &&& e.body == seq![
            (names_in_a_row(e.names).len() / 0x100) as u8,
            (names_in_a_row(e.names).len() % 0x100) as u8,
        ] + names_in_a_row(e.names) + e.rest
        &&& forall|j: int| 0 <= j < e.names.len() ==> (#[trigger] e.names[j]).1.len() < 0x1_0000
    }
    &&& e.ext_type == 16 ==> {
        &&& e.body == seq![
            (protocols_in_a_row(e.protocols).len() / 0x100) as u8,
            (protocols_in_a_row(e.protocols).len() % 0x100) as u8,
        ] + protocols_in_a_row(e.protocols) + e.rest
        &&& forall|j: int| 0 <= j < e.protocols.len() ==> (#[trigger] e.protocols[j]).len() < 0x100
    }
}

/// What an extension contributes.
spec fn offer(e: Described) -> Offer {
    if e.ext_type == 0 {
        Offer { hosts: grammar::host_names(entries(e.names)), alpn: Seq::empty() }
    } else if e.ext_type == 16 {
        Offer { hosts: Seq::empty(), alpn: e.protocols }
    } else {
        Offer { hosts: Seq::empty(), alpn: Seq::empty() }
    }
}

/// What extensions contribute.
spec fn total(extensions: Seq<Described>) -> Offer
    decreases extensions.len(),
{
    if extensions.len() == 0 {
        Offer { hosts: Seq::empty(), alpn: Seq::empty() }
    } else {
        Offer {
            hosts: offer(extensions[0]).hosts + total(extensions.drop_first()).hosts,
            alpn: offer(extensions[0]).alpn + total(extensions.drop_first()).alpn,
        }
    }
}

/// Server name entries in front of a list are read first.
proof fn lemma_names_then(names: Seq<(u8, Seq<u8>)>, rest: Seq<u8>)
    requires
        forall|j: int| 0 <= j < names.len() ==> (#[trigger] names[j]).1.len() < 0x1_0000,
    ensures
        grammar::server_names(names_in_a_row(names) + rest) == match grammar::server_names(rest) {
            Ok(later) => Ok(entries(names) + later),
            Err(reason) => Err(reason),
        },
    decreases names.len(),
{
    let row = |n: (u8, Seq<u8>)|
        seq![n.0, (n.1.len() / 0x100) as u8, (n.1.len() % 0x100) as u8] + n.1;
    if names.len() == 0 {
        assert(names_in_a_row(names) + rest == rest);
        assert(forall|later: Seq<ServerName>| #[trigger] (entries(names) + later) == later);
    } else {
        let later = names.drop_first();
        let n = names[0];
        let after = names_in_a_row(later) + rest;
        let whole = names_in_a_row(names) + rest;
        assert(names.map_values(row).drop_first() == later.map_values(row));
        assert(names_in_a_row(names) == names.map_values(row).flatten());
        assert(names_in_a_row(later) == later.map_values(row).flatten());
        assert(names_in_a_row(names) == row(n) + names_in_a_row(later));
        assert(whole.subrange(1, whole.len() as int) == encoding::field(2, n.1) + after);
        encoding::law_field_is_read_back(2, n.1, after);
        lemma_names_then(later, rest);
        assert(entries(names) == seq![ServerName { name_type: n.0, name: n.1 }] + entries(later));
        assert(forall|more: Seq<ServerName>| #[trigger]
            (entries(names) + more) == seq![ServerName { name_type: n.0, name: n.1 }] + (entries(
                later,
            ) + more));
    }
}

/// Protocols in front of a list are read first.
proof fn lemma_protocols_then(protocols: Seq<Seq<u8>>, rest: Seq<u8>)
    requires
        forall|j: int| 0 <= j < protocols.len() ==> (#[trigger] protocols[j]).len() < 0x100,
    ensures
        grammar::protocols(protocols_in_a_row(protocols) + rest) == match grammar::protocols(rest) {
            Ok(later) => Ok(protocols + later),
            Err(reason) => Err(reason),
        },
    decreases protocols.len(),
{
    let row = |p: Seq<u8>| seq![p.len() as u8] + p;
    if protocols.len() == 0 {
        assert(protocols_in_a_row(protocols) + rest == rest);
        assert(forall|later: Seq<Seq<u8>>| #[trigger] (protocols + later) == later);
    } else {
        let later = protocols.drop_first();
        let p = protocols[0];
        let after = protocols_in_a_row(later) + rest;
        assert(protocols.map_values(row).drop_first() == later.map_values(row));
        assert(protocols_in_a_row(protocols) == protocols.map_values(row).flatten());
        assert(protocols_in_a_row(later) == later.map_values(row).flatten());
        assert(protocols_in_a_row(protocols) == row(p) + protocols_in_a_row(later));
        assert(protocols_in_a_row(protocols) + rest == encoding::field(1, p) + after);
        encoding::law_field_is_read_back(1, p, after);
        lemma_protocols_then(later, rest);
        assert(forall|more: Seq<Seq<u8>>| #[trigger]
            (protocols + more) == seq![p] + (later + more));
    }
}

/// An extension that is made of what is said contributes it.
proof fn lemma_extension(e: Described)
    requires
        fits(e),
    ensures
        grammar::extension_offer(e.ext_type as int, e.body) == Ok::<Offer, Seq<char>>(offer(e)),
{
    let nothing = Seq::<u8>::empty();
    if e.ext_type == 0 {
        let list = names_in_a_row(e.names);
        assert(e.body == encoding::field(2, list) + e.rest);
        encoding::law_field_is_read_back(2, list, e.rest);
        lemma_names_then(e.names, nothing);
        assert(list + nothing == list);
        assert(entries(e.names) + Seq::<ServerName>::empty() == entries(e.names));
    } else if e.ext_type == 16 {
        let list = protocols_in_a_row(e.protocols);
        assert(e.body == encoding::field(2, list) + e.rest);
        encoding::law_field_is_read_back(2, list, e.rest);
        lemma_protocols_then(e.protocols, nothing);
        assert(list + nothing == list);
        assert(e.protocols + Seq::<Seq<u8>>::empty() == e.protocols);
    }
}

/// Extensions in front of a list are read first.
proof fn lemma_extensions_then(extensions: Seq<Described>, rest: Seq<u8>)
    requires
        forall|i: int| 0 <= i < extensions.len() ==> fits(#[trigger] extensions[i]),
    ensures
        match grammar::extensions_offer(rest) {
            Ok(later) => {
                &&& grammar::extensions_offer(extensions_in_a_row(extensions) + rest) matches Ok(all)
                &&& all.hosts == total(extensions).hosts + later.hosts
                &&& all.alpn == total(extensions).alpn + later.alpn
            },
            Err(reason) => grammar::extensions_offer(extensions_in_a_row(extensions) + rest) == Err::<
                Offer,
                Seq<char>,
            >(reason),
        },
    decreases extensions.len(),
{
    let row = |e: Described|
        seq![
            (e.ext_type / 0x100) as u8,
            (e.ext_type % 0x100) as u8,
            (e.body.len() / 0x100) as u8,
            (e.body.len() % 0x100) as u8,
        ] + e.body;
    if extensions.len() == 0 {
        assert(extensions_in_a_row(extensions) + rest == rest);
        if let Ok(later) = grammar::extensions_offer(rest) {
            assert(total(extensions).hosts + later.hosts == later.hosts);
            assert(total(extensions).alpn + later.alpn == later.alpn);
        }
    } else {
        let e = extensions[0];
        let tail = extensions.drop_first();
        let after = extensions_in_a_row(tail) + rest;
        let whole = extensions_in_a_row(extensions) + rest;
        assert(extensions.map_values(row).drop_first() == tail.map_values(row));
        assert(extensions_in_a_row(extensions) == extensions.map_values(row).flatten());
        assert(extensions_in_a_row(tail) == tail.map_values(row).flatten());
        assert(extensions_in_a_row(extensions) == row(e) + extensions_in_a_row(tail));
        assert(whole.subrange(2, whole.len() as int) == encoding::field(2, e.body) + after);
        assert(wire::u16_at(whole, 0) == e.ext_type);
        encoding::law_field_is_read_back(2, e.body, after);
        lemma_extension(e);
        lemma_extensions_then(tail, rest);
        if let Ok(later) = grammar::extensions_offer(rest) {
            assert(total(extensions).hosts + later.hosts == offer(e).hosts + (total(tail).hosts
                + later.hosts));
            assert(total(extensions).alpn + later.alpn == offer(e).alpn + (total(tail).alpn
                + later.alpn));
        }
    }
}

/// The text of a name list: that of its first host name in UTF-8, if it has one.
proof fn lemma_text_of_names(names: Seq<(u8, Seq<u8>)>)
    ensures
        (forall|j: int|
            0 <= j < names.len() ==> !((#[trigger] names[j]).0 == 0 && utf8::valid_utf8(
                names[j].1,
            ))) ==> grammar::first_text(grammar::host_names(entries(names))) is None,
        forall|k: int|
            0 <= k < names.len() && (#[trigger] names[k]).0 == 0 && utf8::valid_utf8(names[k].1)
                && (forall|j: int|
                0 <= j < k ==> !((#[trigger] names[j]).0 == 0 && utf8::valid_utf8(names[j].1)))
                ==> grammar::first_text(grammar::host_names(entries(names))) == Some(
                utf8::decode_utf8(names[k].1),
            ),
    decreases names.len(),
{
    if names.len() > 0 {
        let later = names.drop_first();
        let n = names[0];
        let first = ServerName { name_type: n.0, name: n.1 };
        assert(entries(names) == seq![first] + entries(later));
        grammar::lemma_first_text_of_entry(first, entries(later));
        lemma_text_of_names(later);
        assert(forall|j: int| 0 <= j < later.len() ==> #[trigger] later[j] == names[j + 1]);
        assert forall|k: int|
            0 <= k < names.len() && (#[trigger] names[k]).0 == 0 && utf8::valid_utf8(names[k].1)
                && (forall|j: int|
                0 <= j < k ==> !((#[trigger] names[j]).0 == 0 && utf8::valid_utf8(
                    names[j].1,
                ))) implies grammar::first_text(grammar::host_names(entries(names))) == Some(
            utf8::decode_utf8(names[k].1),
        ) by {
            if k > 0 {
                assert(!(names[0].0 == 0 && utf8::valid_utf8(names[0].1)));
                assert(later[k - 1] == names[k]);
            }
        }
    }
}

/// No host name in UTF-8: no text.
proof fn lemma_no_text(extensions: Seq<Described>)
    requires
        forall|i: int, j: int|
            0 <= i < extensions.len() && 0 <= j < extensions[i].names.len()
                && extensions[i].ext_type == 0 ==> !((#[trigger] extensions[i].names[j]).0 == 0
                && utf8::valid_utf8(extensions[i].names[j].1)),
    ensures
        grammar::first_text(total(extensions).hosts) is None,
    decreases extensions.len(),
{
    if extensions.len() > 0 {
        let tail = extensions.drop_first();
        let e = extensions[0];
        assert forall|i: int, j: int|
            0 <= i < tail.len() && 0 <= j < tail[i].names.len() && tail[i].ext_type
                == 0 implies !((#[trigger] tail[i].names[j]).0 == 0 && utf8::valid_utf8(
            tail[i].names[j].1,
        )) by {
            assert(tail[i].names[j] == extensions[i + 1].names[j]);
        }
        lemma_no_text(tail);
        lemma_text_of_names(e.names);
        grammar::lemma_first_text_of_sum(offer(e).hosts, total(tail).hosts);
    }
}

/// The first host name in UTF-8 gives the text.
proof fn lemma_text(extensions: Seq<Described>, at: int, k: int)
    requires
        0 <= at < extensions.len(),
        extensions[at].ext_type == 0,
        0 <= k < extensions[at].names.len(),
        extensions[at].names[k].0 == 0,
        utf8::valid_utf8(extensions[at].names[k].1),
        forall|i: int, j: int|
            0 <= i < extensions.len() && 0 <= j < extensions[i].names.len()
                && extensions[i].ext_type == 0 && (i < at || (i == at && j < k)) ==> !((
            #[trigger] extensions[i].names[j]).0 == 0 && utf8::valid_utf8(
                extensions[i].names[j].1,
            )),
    ensures
        grammar::first_text(total(extensions).hosts) == Some(
            utf8::decode_utf8(extensions[at].names[k].1),
        ),
    decreases extensions.len(),
{
    let tail = extensions.drop_first();
    let e = extensions[0];
    lemma_text_of_names(e.names);
    grammar::lemma_first_text_of_sum(offer(e).hosts, total(tail).hosts);
    if at == 0 {
        assert forall|j: int| 0 <= j < k implies !((#[trigger] e.names[j]).0 == 0
            && utf8::valid_utf8(e.names[j].1)) by {
            assert(extensions[0].names[j] == e.names[j]);
        }
        assert(e.names[k].0 == 0);
    } else {
        assert forall|j: int|
            0 <= j < e.names.len() && e.ext_type == 0 implies !((#[trigger] e.names[j]).0 == 0
            && utf8::valid_utf8(e.names[j].1)) by {
            assert(extensions[0].names[j] == e.names[j]);
        }
        assert(tail[at - 1] == extensions[at]);
        assert forall|i: int, j: int|
            0 <= i < tail.len() && 0 <= j < tail[i].names.len() && tail[i].ext_type == 0 && (i < at
                - 1 || (i == at - 1 && j < k)) implies !((#[trigger] tail[i].names[j]).0 == 0
            && utf8::valid_utf8(tail[i].names[j].1)) by {
            assert(tail[i].names[j] == extensions[i + 1].names[j]);
        }
        lemma_text(tail, at - 1, k);
    }
}

/// The protocols of all ALPN extensions in a row.
proof fn lemma_protocols_in_order(extensions: Seq<Described>)
    ensures
        total(extensions).alpn == extensions.map_values(
            |e: Described|
                if e.ext_type == 16 {
                    e.protocols
                } else {
                    Seq::<Seq<u8>>::empty()
                },
        ).flatten(),
    decreases extensions.len(),
{
    let given = |e: Described|
        if e.ext_type == 16 {
            e.protocols
        } else {
            Seq::<Seq<u8>>::empty()
        };
    let all = extensions.map_values(
        |e: Described|
            if e.ext_type == 16 {
                e.protocols
            } else {
                Seq::<Seq<u8>>::empty()
            },
    );
    assert(all == extensions.map_values(given));
    if extensions.len() > 0 {
        let tail = extensions.drop_first();
        lemma_protocols_in_order(tail);
        assert(extensions.map_values(given).drop_first() == tail.map_values(given));
        assert(tail.map_values(given) == tail.map_values(
            |e: Described|
                if e.ext_type == 16 {
                    e.protocols
                } else {
                    Seq::<Seq<u8>>::empty()
                },
        ));
    }
}

/// Extensions that are written out are extensions in a row.
proof fn lemma_written_out(given: Seq<Described>)
    requires
        forall|i: int| 0 <= i < given.len() ==> (#[trigger] given[i]).body.len() < 0x1_0000,
        forall|i: int|
            0 <= i < given.len() && (#[trigger] given[i]).ext_type == 0 ==> given[i].body == ({
                let list = given[i].names.map_values(
                    |n: (u8, Seq<u8>)|
                        seq![n.0, (n.1.len() / 0x100) as u8, (n.1.len() % 0x100) as u8] + n.1,
                ).flatten();
                seq![(list.len() / 0x100) as u8, (list.len() % 0x100) as u8] + list + given[i].rest
            }),
        forall|i: int|
            0 <= i < given.len() && (#[trigger] given[i]).ext_type == 16 ==> given[i].body == ({
                let list = given[i].protocols.map_values(
                    |p: Seq<u8>| seq![p.len() as u8] + p,
                ).flatten();
                seq![(list.len() / 0x100) as u8, (list.len() % 0x100) as u8] + list + given[i].rest
            }),
        forall|i: int, j: int|
            0 <= i < given.len() && 0 <= j < given[i].names.len() ==> (
            #[trigger] given[i].names[j]).1.len() < 0x1_0000,
        forall|i: int, j: int|
            0 <= i < given.len() && 0 <= j < given[i].protocols.len() ==> (
            #[trigger] given[i].protocols[j]).len() < 0x100,
    ensures
        forall|i: int| 0 <= i < given.len() ==> fits(#[trigger] given[i]),
        given.map_values(
            |e: Described|
                seq![
                    (e.ext_type / 0x100) as u8,
                    (e.ext_type % 0x100) as u8,
                    (e.body.len() / 0x100) as u8,
                    (e.body.len() % 0x100) as u8,
                ] + e.body,
        ).flatten() == extensions_in_a_row(given),
{
    assert forall|i: int| 0 <= i < given.len() implies fits(#[trigger] given[i]) by {
        let e = given[i];
        let names = e.names.map_values(
            |n: (u8, Seq<u8>)|
                seq![n.0, (n.1.len() / 0x100) as u8, (n.1.len() % 0x100) as u8] + n.1,
        );
        let protocols = e.protocols.map_values(|p: Seq<u8>| seq![p.len() as u8] + p);
        assert(names.flatten() == names_in_a_row(e.names));
        assert(protocols.flatten() == protocols_in_a_row(e.protocols));
        assert(forall|j: int| 0 <= j < e.names.len() ==> #[trigger] e.names[j] == given[i].names[j]);
        assert(forall|j: int|
            0 <= j < e.protocols.len() ==> #[trigger] e.protocols[j] == given[i].protocols[j]);
    }
}

/// What a whole message with whole extensions gives, wherever they stand and whatever
/// else is there: the server name is the first entry of type host, in the first
/// `server_name` extension that has one, whose name is UTF-8, of any length; there is no
/// server name only where no such entry is; the protocols are those of all ALPN
/// extensions, in order; the length is the one of the header. Extensions of other types,
/// what follows a list in its extension, what follows the extensions in the body and what
/// follows the message do not matter.
pub proof fn law_whole_message(
    buffer: &[u8],
    parsed: Parse<'_>,
    end: int,
    suites: int,
    methods: int,
    extensions: int,
    stop: int,
    given: Seq<Described>,
)
    requires
        call_ensures(try_parse, (buffer,), parsed),
        buffer@.len() >= 4,
        buffer@[0] == 1,
        end == 4 + 0x1_0000 * buffer@[1] + 0x100 * buffer@[2] + buffer@[3],
        suites == 39 + buffer@[38],
        methods == suites + 2 + 0x100 * buffer@[suites] + buffer@[suites + 1],
        extensions == methods + 1 + buffer@[methods],
        stop == extensions + 2 + 0x100 * buffer@[extensions] + buffer@[extensions + 1],
        stop <= end <= buffer@.len(),
        buffer@.subrange(extensions + 2, stop) == given.map_values(
            |e: Described|
                seq![
                    (e.ext_type / 0x100) as u8,
                    (e.ext_type % 0x100) as u8,
                    (e.body.len() / 0x100) as u8,
                    (e.body.len() % 0x100) as u8,
                ] + e.body,
        ).flatten(),
        forall|i: int| 0 <= i < given.len() ==> (#[trigger] given[i]).body.len() < 0x1_0000,
        forall|i: int|
            0 <= i < given.len() && (#[trigger] given[i]).ext_type == 0 ==> given[i].body == ({
                let list = given[i].names.map_values(
                    |n: (u8, Seq<u8>)|
                        seq![n.0, (n.1.len() / 0x100) as u8, (n.1.len() % 0x100) as u8] + n.1,
                ).flatten();
                seq![(list.len() / 0x100) as u8, (list.len() % 0x100) as u8] + list + given[i].rest
            }),
        forall|i: int|
            0 <= i < given.len() && (#[trigger] given[i]).ext_type == 16 ==> given[i].body == ({
                let list = given[i].protocols.map_values(
                    |p: Seq<u8>| seq![p.len() as u8] + p,
                ).flatten();
                seq![(list.len() / 0x100) as u8, (list.len() % 0x100) as u8] + list + given[i].rest
            }),
        forall|i: int, j: int|
            0 <= i < given.len() && 0 <= j < given[i].names.len() ==> (
            #[trigger] given[i].names[j]).1.len() < 0x1_0000,
        forall|i: int, j: int|
            0 <= i < given.len() && 0 <= j < given[i].protocols.len() ==> (
            #[trigger] given[i].protocols[j]).len() < 0x100,
    ensures
        ({
            let protocols = given.map_values(
                |e: Described|
                    if e.ext_type == 16 {
                        e.protocols
                    } else {
                        Seq::<Seq<u8>>::empty()
                    },
            ).flatten();
            &&& parsed matches Parse::Complete { server_name, alpn, _total_len }
            &&& _total_len == end
            &&& alpn@.len() == protocols.len()
            &&& forall|i: int| 0 <= i < alpn@.len() ==> (#[trigger] alpn@[i])@ == protocols[i]
            &&& forall|at: int, k: int|
                {
                    &&& 0 <= at < given.len()
                    &&& given[at].ext_type == 0
                    &&& 0 <= k < given[at].names.len()
                    &&& (#[trigger] given[at].names[k]).0 == 0
                    &&& utf8::valid_utf8(given[at].names[k].1)
                    &&& forall|i: int, j: int|
                        0 <= i < given.len() && 0 <= j < given[i].names.len() && given[i].ext_type
                            == 0 && (i < at || (i == at && j < k)) ==> !((
                        #[trigger] given[i].names[j]).0 == 0 && utf8::valid_utf8(
                            given[i].names[j].1,
                        ))
                } ==> (server_name matches Some(name) && name@ == utf8::decode_utf8(
                    given[at].names[k].1,
                ) && utf8::encode_utf8(name@) == given[at].names[k].1)
            &&& (forall|i: int, j: int|
                0 <= i < given.len() && 0 <= j < given[i].names.len() && given[i].ext_type == 0
                    ==> !((#[trigger] given[i].names[j]).0 == 0 && utf8::valid_utf8(
                    given[i].names[j].1,
                ))) ==> server_name is None
        }),
{
    let nothing = Seq::<u8>::empty();
    lemma_written_out(given);
    lemma_fields_by_position(buffer@, end);
    lemma_extensions_then(given, nothing);
    lemma_protocols_in_order(given);
    let list = buffer@.subrange(extensions + 2, stop);
    assert(list == extensions_in_a_row(given));
    assert(extensions_in_a_row(given) + nothing == extensions_in_a_row(given));
    let all = grammar::extensions_offer(list)->Ok_0;
    assert(all.hosts == total(given).hosts);
    assert(all.alpn == total(given).alpn);
    assert(parsed@ == grammar::outcome(buffer@));
    assert(parsed is Complete);
    let alpn = parsed->alpn;
    assert(forall|i: int| 0 <= i < alpn@.len() ==> (#[trigger] alpn@[i])@ == wire::contents(alpn@)[i]);
    assert forall|at: int, k: int|
        {
            &&& 0 <= at < given.len()
            &&& given[at].ext_type == 0
            &&& 0 <= k < given[at].names.len()
            &&& (#[trigger] given[at].names[k]).0 == 0
            &&& utf8::valid_utf8(given[at].names[k].1)
            &&& forall|i: int, j: int|
                0 <= i < given.len() && 0 <= j < given[i].names.len() && given[i].ext_type == 0 && (
                i < at || (i == at && j < k)) ==> !((#[trigger] given[i].names[j]).0 == 0
                    && utf8::valid_utf8(given[i].names[j].1))
        } implies (parsed->server_name matches Some(name) && name@ == utf8::decode_utf8(
        given[at].names[k].1,
    ) && utf8::encode_utf8(name@) == given[at].names[k].1) by {
        lemma_text(given, at, k);
        utf8::decode_utf8_encode_utf8(given[at].names[k].1);
    }
    if forall|i: int, j: int|
        0 <= i < given.len() && 0 <= j < given[i].names.len() && given[i].ext_type == 0 ==> !((
        #[trigger] given[i].names[j]).0 == 0 && utf8::valid_utf8(given[i].names[j].1)) {
        lemma_no_text(given);
    }
}

/// What a message gives whose extensions are whole up to `tail`, and there go wrong: the
/// first fault is named, by what is missing. An extension is a type, a length and a body;
/// a `server_name` or ALPN body starts with a length and a list.
pub proof fn law_malformed_extension(
    buffer: &[u8],
    parsed: Parse<'_>,
    end: int,
    suites: int,
    methods: int,
    extensions: int,
    stop: int,
    given: Seq<Described>,
    tail: Seq<u8>,
)
    requires
        call_ensures(try_parse, (buffer,), parsed),
        buffer@.len() >= 4,
        buffer@[0] == 1,
        end == 4 + 0x1_0000 * buffer@[1] + 0x100 * buffer@[2] + buffer@[3],
        suites == 39 + buffer@[38],
        methods == suites + 2 + 0x100 * buffer@[suites] + buffer@[suites + 1],
        extensions == methods + 1 + buffer@[methods],
        stop == extensions + 2 + 0x100 * buffer@[extensions] + buffer@[extensions + 1],
        stop <= end <= buffer@.len(),
        buffer@.subrange(extensions + 2, stop) == given.map_values(
            |e: Described|
                seq![
                    (e.ext_type / 0x100) as u8,
                    (e.ext_type % 0x100) as u8,
                    (e.body.len() / 0x100) as u8,
                    (e.body.len() % 0x100) as u8,
                ] + e.body,
        ).flatten() + tail,
        forall|i: int| 0 <= i < given.len() ==> (#[trigger] given[i]).body.len() < 0x1_0000,
        forall|i: int|
            0 <= i < given.len() && (#[trigger] given[i]).ext_type == 0 ==> given[i].body == ({
                let list = given[i].names.map_values(
                    |n: (u8, Seq<u8>)|
                        seq![n.0, (n.1.len() / 0x100) as u8, (n.1.len() % 0x100) as u8] + n.1,
                ).flatten();
                seq![(list.len() / 0x100) as u8, (list.len() % 0x100) as u8] + list + given[i].rest
            }),
        forall|i: int|
            0 <= i < given.len() && (#[trigger] given[i]).ext_type == 16 ==> given[i].body == ({
                let list = given[i].protocols.map_values(
                    |p: Seq<u8>| seq![p.len() as u8] + p,
                ).flatten();
                seq![(list.len() / 0x100) as u8, (list.len() % 0x100) as u8] + list + given[i].rest
            }),
        forall|i: int, j: int|
            0 <= i < given.len() && 0 <= j < given[i].names.len() ==> (
            #[trigger] given[i].names[j]).1.len() < 0x1_0000,
        forall|i: int, j: int|
            0 <= i < given.len() && 0 <= j < given[i].protocols.len() ==> (
            #[trigger] given[i].protocols[j]).len() < 0x100,
    ensures
        ({
            let ext_type = 0x100 * tail[0] + tail[1];
            let len = 0x100 * tail[2] + tail[3];
            let list_len = 0x100 * tail[4] + tail[5];
            &&& tail.len() == 1 ==> (parsed matches Parse::Error(reason) && reason@
                == "extension header"@)
            &&& 2 <= tail.len() < 4 ==> (parsed matches Parse::Error(reason) && reason@
                == "extension length"@)
            &&& 4 <= tail.len() < 4 + len ==> (parsed matches Parse::Error(reason) && reason@
                == "extension body"@)
            &&& 4 + len <= tail.len() && 4 <= tail.len() && ext_type == 0 && len < 2 ==> (
            parsed matches Parse::Error(reason) && reason@ == "sni list length"@)
            &&& 4 + len <= tail.len() && 4 <= tail.len() && ext_type == 0 && 2 <= len < 2 + list_len
                ==> (parsed matches Parse::Error(reason) && reason@ == "sni list body"@)
            &&& 4 + len <= tail.len() && 4 <= tail.len() && ext_type == 16 && len < 2 ==> (
            parsed matches Parse::Error(reason) && reason@ == "alpn list length"@)
            &&& 4 + len <= tail.len() && 4 <= tail.len() && ext_type == 16 && 2 <= len < 2
                + list_len ==> (parsed matches Parse::Error(reason) && reason@
                == "alpn list body"@)
        }),
{
    lemma_written_out(given);
    lemma_fields_by_position(buffer@, end);
    lemma_extensions_then(given, tail);
    assert(buffer@.subrange(extensions + 2, stop) == extensions_in_a_row(given) + tail);
    assert(parsed@ == grammar::outcome(buffer@));
}

/// What a message gives whose extensions are whole up to one, in `tail`, whose list is
/// whole up to `bad`, and there goes wrong: a server name entry is a type, a length of two
/// bytes and a name, a protocol a length of one byte and a name.
pub proof fn law_malformed_entry(
    buffer: &[u8],
    parsed: Parse<'_>,
    end: int,
    suites: int,
    methods: int,
    extensions: int,
    stop: int,
    given: Seq<Described>,
    tail: Seq<u8>,
    names: Seq<(u8, Seq<u8>)>,
    protocols: Seq<Seq<u8>>,
    bad: Seq<u8>,
)
    requires
        call_ensures(try_parse, (buffer,), parsed),
        buffer@.len() >= 4,
        buffer@[0] == 1,
        end == 4 + 0x1_0000 * buffer@[1] + 0x100 * buffer@[2] + buffer@[3],
        suites == 39 + buffer@[38],
        methods == suites + 2 + 0x100 * buffer@[suites] + buffer@[suites + 1],
        extensions == methods + 1 + buffer@[methods],
        stop == extensions + 2 + 0x100 * buffer@[extensions] + buffer@[extensions + 1],
        stop <= end <= buffer@.len(),
        buffer@.subrange(extensions + 2, stop) == given.map_values(
            |e: Described|
                seq![
                    (e.ext_type / 0x100) as u8,
                    (e.ext_type % 0x100) as u8,
                    (e.body.len() / 0x100) as u8,
                    (e.body.len() % 0x100) as u8,
                ] + e.body,
        ).flatten() + tail,
        forall|i: int| 0 <= i < given.len() ==> (#[trigger] given[i]).body.len() < 0x1_0000,
        forall|i: int|
            0 <= i < given.len() && (#[trigger] given[i]).ext_type == 0 ==> given[i].body == ({
                let list = given[i].names.map_values(
                    |n: (u8, Seq<u8>)|
                        seq![n.0, (n.1.len() / 0x100) as u8, (n.1.len() % 0x100) as u8] + n.1,
                ).flatten();
                seq![(list.len() / 0x100) as u8, (list.len() % 0x100) as u8] + list + given[i].rest
            }),
        forall|i: int|
            0 <= i < given.len() && (#[trigger] given[i]).ext_type == 16 ==> given[i].body == ({
                let list = given[i].protocols.map_values(
                    |p: Seq<u8>| seq![p.len() as u8] + p,
                ).flatten();
                seq![(list.len() / 0x100) as u8, (list.len() % 0x100) as u8] + list + given[i].rest
            }),
        forall|i: int, j: int|
            0 <= i < given.len() && 0 <= j < given[i].names.len() ==> (
            #[trigger] given[i].names[j]).1.len() < 0x1_0000,
        forall|i: int, j: int|
            0 <= i < given.len() && 0 <= j < given[i].protocols.len() ==> (
            #[trigger] given[i].protocols[j]).len() < 0x100,
        6 <= tail.len(),
        2 + 0x100 * tail[4] + tail[5] <= 0x100 * tail[2] + tail[3],
        4 + 0x100 * tail[2] + tail[3] <= tail.len(),
        tail[0] == 0,
        tail[1] == 0 ==> tail.subrange(6, 6 + 0x100 * tail[4] + tail[5]) == names.map_values(
            |n: (u8, Seq<u8>)|
                seq![n.0, (n.1.len() / 0x100) as u8, (n.1.len() % 0x100) as u8] + n.1,
        ).flatten() + bad,
        tail[1] == 16 ==> tail.subrange(6, 6 + 0x100 * tail[4] + tail[5]) == protocols.map_values(
            |p: Seq<u8>| seq![p.len() as u8] + p,
        ).flatten() + bad,
        forall|j: int| 0 <= j < names.len() ==> (#[trigger] names[j]).1.len() < 0x1_0000,
        forall|j: int| 0 <= j < protocols.len() ==> (#[trigger] protocols[j]).len() < 0x100,
    ensures
        tail[1] == 0 && 1 <= bad.len() < 3 ==> (parsed matches Parse::Error(reason) && reason@
            == "sni name length"@),
        tail[1] == 0 && 3 <= bad.len() < 3 + 0x100 * bad[1] + bad[2] ==> (
        parsed matches Parse::Error(reason) && reason@ == "sni name body"@),
        tail[1] == 16 && 1 <= bad.len() < 1 + bad[0] ==> (parsed matches Parse::Error(reason)
            && reason@ == "alpn name body"@),
{
    lemma_written_out(given);
    lemma_fields_by_position(buffer@, end);
    lemma_extensions_then(given, tail);
    assert(buffer@.subrange(extensions + 2, stop) == extensions_in_a_row(given) + tail);
    assert(parsed@ == grammar::outcome(buffer@));
    let inner = tail.subrange(2, tail.len() as int);
    let body = wire::field_content(inner, 2);
    let list = tail.subrange(6, 6 + 0x100 * tail[4] + tail[5]);
    assert(wire::u16_at(tail, 0) == tail[1]);
    assert(wire::field_content(body, 2) == list);
    if tail[1] == 0 {
        lemma_names_then(names, bad);
        assert(names_in_a_row(names) == names.map_values(
            |n: (u8, Seq<u8>)|
                seq![n.0, (n.1.len() / 0x100) as u8, (n.1.len() % 0x100) as u8] + n.1,
        ).flatten());
        assert(list == names_in_a_row(names) + bad);
    } else if tail[1] == 16 {
        lemma_protocols_then(protocols, bad);
        assert(list == protocols_in_a_row(protocols) + bad);
    }
}

/// A client that asks for one host is heard, whatever the length of the name, wherever the
/// extension stands and whatever the other extensions hold: that host is the server name.
pub proof fn law_one_host(
    buffer: &[u8],
    parsed: Parse<'_>,
    end: int,
    suites: int,
    methods: int,
    extensions: int,
    stop: int,
    given: Seq<Described>,
    at: int,
    host: Seq<char>,
)
    requires
        call_ensures(try_parse, (buffer,), parsed),
        buffer@.len() >= 4,
        buffer@[0] == 1,
        end == 4 + 0x1_0000 * buffer@[1] + 0x100 * buffer@[2] + buffer@[3],
        suites == 39 + buffer@[38],
        methods == suites + 2 + 0x100 * buffer@[suites] + buffer@[suites + 1],
        extensions == methods + 1 + buffer@[methods],
        stop == extensions + 2 + 0x100 * buffer@[extensions] + buffer@[extensions + 1],
        stop <= end <= buffer@.len(),
        buffer@.subrange(extensions + 2, stop) == given.map_values(
            |e: Described|
                seq![
                    (e.ext_type / 0x100) as u8,
                    (e.ext_type % 0x100) as u8,
                    (e.body.len() / 0x100) as u8,
                    (e.body.len() % 0x100) as u8,
                ] + e.body,
        ).flatten(),
        forall|i: int| 0 <= i < given.len() ==> (#[trigger] given[i]).body.len() < 0x1_0000,
        forall|i: int|
            0 <= i < given.len() && (#[trigger] given[i]).ext_type == 0 ==> given[i].body == ({
                let list = given[i].names.map_values(
                    |n: (u8, Seq<u8>)|
                        seq![n.0, (n.1.len() / 0x100) as u8, (n.1.len() % 0x100) as u8] + n.1,
                ).flatten();
                seq![(list.len() / 0x100) as u8, (list.len() % 0x100) as u8] + list + given[i].rest
            }),
        forall|i: int|
            0 <= i < given.len() && (#[trigger] given[i]).ext_type == 16 ==> given[i].body == ({
                let list = given[i].protocols.map_values(
                    |p: Seq<u8>| seq![p.len() as u8] + p,
                ).flatten();
                seq![(list.len() / 0x100) as u8, (list.len() % 0x100) as u8] + list + given[i].rest
            }),
        forall|i: int, j: int|
            0 <= i < given.len() && 0 <= j < given[i].names.len() ==> (
            #[trigger] given[i].names[j]).1.len() < 0x1_0000,
        forall|i: int, j: int|
            0 <= i < given.len() && 0 <= j < given[i].protocols.len() ==> (
            #[trigger] given[i].protocols[j]).len() < 0x100,
        0 <= at < given.len(),
        given[at].ext_type == 0,
        given[at].names == seq![(0u8, utf8::encode_utf8(host))],
        forall|i: int| 0 <= i < given.len() && i != at ==> (#[trigger] given[i]).ext_type != 0,
    ensures
        parsed matches Parse::Complete { server_name, .. } && server_name matches Some(name)
            && name@ == host,
{
    law_whole_message(buffer, parsed, end, suites, methods, extensions, stop, given);
    utf8::encode_utf8_valid_utf8(host);
    utf8::encode_utf8_decode_utf8(host);
    assert(given[at].names[0] == (0u8, utf8::encode_utf8(host)));
    assert(given[at].names[0].0 == 0);
}

/// A message gives what it gives by itself: another buffer that starts with the same whole
/// message gives the same name, the same protocols and the same length.
pub proof fn law_same_message_same_answer(
    one: &[u8],
    parsed: Parse<'_>,
    other: &[u8],
    other_parsed: Parse<'_>,
)
    requires
        call_ensures(try_parse, (one,), parsed),
        call_ensures(try_parse, (other,), other_parsed),
        parsed matches Parse::Complete { _total_len, .. } && _total_len <= other@.len()
            && other@.subrange(0, _total_len as int) == one@.subrange(0, _total_len as int),
    ensures
        other_parsed matches Parse::Complete {
            server_name: other_name,
            alpn: other_alpn,
            _total_len: other_len,
        } && parsed matches Parse::Complete { server_name, alpn, _total_len } && other_len
            == _total_len && match server_name {
            Some(name) => other_name matches Some(same) && same@ == name@,
            None => other_name is None,
        } && alpn@.len() == other_alpn@.len() && forall|i: int|
            0 <= i < alpn@.len() ==> (#[trigger] other_alpn@[i])@ == alpn@[i]@,
{
    assert(parsed@ == grammar::outcome(one@));
    assert(other_parsed@ == grammar::outcome(other@));
    let len = parsed->_total_len as int;
    laws::law_message_alone_decides(one@);
    let message = one@.subrange(0, len);
    laws::law_decision_is_final(message, other@.subrange(len, other@.len() as int));
    assert(message + other@.subrange(len, other@.len() as int) == other@);
    assert(wire::contents(other_parsed->alpn@) == wire::contents(parsed->alpn@));
    let alpn = parsed->alpn;
    let other_alpn = other_parsed->alpn;
    assert(wire::contents(alpn@).len() == alpn@.len());
    assert(wire::contents(other_alpn@).len() == other_alpn@.len());
    assert forall|i: int| 0 <= i < alpn@.len() implies (#[trigger] other_alpn@[i])@
        == alpn@[i]@ by {
        assert(wire::contents(other_alpn@)[i] == other_alpn@[i]@);
        assert(wire::contents(alpn@)[i] == alpn@[i]@);
    }
}

} // verus!
