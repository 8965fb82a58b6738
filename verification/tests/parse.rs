//! The parser on concrete buffers.

use quinn_deferred_config::parse::{try_parse, Parse};
use quinn_deferred_config::reader::Reader;

/// A TLS 1.3 ClientHello with the SNI extension only.
fn fake_clienthello_with_sni(sni: &str) -> Vec<u8> {
    let host = sni.as_bytes();
    let sni_entry_len = 1 + 2 + host.len();
    let sni_list_len = sni_entry_len;
    let sni_ext_body_len = 2 + sni_list_len;
    let sni_ext_total = 4 + sni_ext_body_len;
    let extensions_len = sni_ext_total;

    // body length: 2 (legacy_version) + 32 (random) + 1 (session_id len)
    //            + 0 (session_id) + 2 (cipher_suites len) + 2 (one cipher)
    //            + 1 (compression_methods len) + 1 (null comp)
    //            + 2 (extensions len) + extensions_len
    let body_len = 2 + 32 + 1 + 0 + 2 + 2 + 1 + 1 + 2 + extensions_len;

    let mut buf = Vec::new();
    // handshake header
    buf.push(1);
    buf.extend_from_slice(&[
        ((body_len >> 16) & 0xff) as u8,
        ((body_len >> 8) & 0xff) as u8,
        (body_len & 0xff) as u8,
    ]);
    // body
    buf.extend_from_slice(&[0x03, 0x03]);
    buf.extend_from_slice(&[0u8; 32]);
    buf.push(0); // session_id len
    buf.extend_from_slice(&[0x00, 0x02, 0x13, 0x01]); // cipher_suites: TLS_AES_128_GCM_SHA256
    buf.extend_from_slice(&[0x01, 0x00]); // compressions: null
    buf.extend_from_slice(&[
        ((extensions_len >> 8) & 0xff) as u8,
        (extensions_len & 0xff) as u8,
    ]);
    // SNI extension
    buf.extend_from_slice(&[0x00, 0x00]); // ext type: server_name
    buf.extend_from_slice(&[
        ((sni_ext_body_len >> 8) & 0xff) as u8,
        (sni_ext_body_len & 0xff) as u8,
    ]);
    buf.extend_from_slice(&[
        ((sni_list_len >> 8) & 0xff) as u8,
        (sni_list_len & 0xff) as u8,
    ]);
    buf.push(0); // name_type: host_name
    buf.extend_from_slice(&[((host.len() >> 8) & 0xff) as u8, (host.len() & 0xff) as u8]);
    buf.extend_from_slice(host);
    buf
}

/// A handshake message of type ClientHello around `body`.
fn framed(body: &[u8]) -> Vec<u8> {
    let n = body.len();
    let mut buf = vec![1, (n >> 16) as u8, (n >> 8) as u8, n as u8];
    buf.extend_from_slice(body);
    buf
}

/// The fields before the extensions: fixed part, empty session_id, one cipher suite,
/// the null compression method.
fn body_head() -> Vec<u8> {
    let mut body = vec![0x03, 0x03];
    body.extend_from_slice(&[7u8; 32]);
    body.extend_from_slice(&[0x00, 0x00, 0x02, 0x13, 0x01, 0x01, 0x00]);
    body
}

/// A message with `extensions` as its extension bytes.
fn with_extensions(extensions: &[u8]) -> Vec<u8> {
    let mut body = body_head();
    let n = extensions.len();
    body.extend_from_slice(&[(n >> 8) as u8, n as u8]);
    body.extend_from_slice(extensions);
    framed(&body)
}

/// An extension of type `ext_type` around `body`.
fn extension(ext_type: u16, body: &[u8]) -> Vec<u8> {
    let n = body.len();
    let mut ext = vec![(ext_type >> 8) as u8, ext_type as u8, (n >> 8) as u8, n as u8];
    ext.extend_from_slice(body);
    ext
}

/// A server_name extension with the given entries.
fn sni(entries: &[(u8, &[u8])]) -> Vec<u8> {
    let mut list = Vec::new();
    for (name_type, name) in entries {
        list.push(*name_type);
        list.extend_from_slice(&[(name.len() >> 8) as u8, name.len() as u8]);
        list.extend_from_slice(name);
    }
    let mut body = vec![(list.len() >> 8) as u8, list.len() as u8];
    body.extend_from_slice(&list);
    extension(0, &body)
}

/// An ALPN extension with the given protocols.
fn alpn(names: &[&[u8]]) -> Vec<u8> {
    let mut list = Vec::new();
    for name in names {
        list.push(name.len() as u8);
        list.extend_from_slice(name);
    }
    let mut body = vec![(list.len() >> 8) as u8, list.len() as u8];
    body.extend_from_slice(&list);
    extension(16, &body)
}

/// The name, the protocols and the length of a message that must be complete.
fn complete(buffer: &[u8]) -> (Option<String>, Vec<Vec<u8>>, usize) {
    match try_parse(buffer) {
        Parse::Complete { server_name, alpn, _total_len } => (
            server_name.map(|name| name.to_string()),
            alpn.iter().map(|name| name.to_vec()).collect(),
            _total_len,
        ),
        Parse::Incomplete => panic!("expected Complete, got Incomplete"),
        Parse::Error(e) => panic!("expected Complete, got Error: {e}"),
    }
}

/// The reason for which a buffer must be refused.
fn refusal(buffer: &[u8]) -> &'static str {
    match try_parse(buffer) {
        Parse::Error(reason) => reason,
        Parse::Incomplete => panic!("expected Error, got Incomplete"),
        Parse::Complete { .. } => panic!("expected Error, got Complete"),
    }
}

#[test]
fn incomplete_buffer_returns_incomplete() {
    let ch = fake_clienthello_with_sni("example.com");
    let partial = &ch[..ch.len() - 5];
    match try_parse(partial) {
        Parse::Incomplete => {}
        _ => panic!("expected Incomplete"),
    }
}

#[test]
fn complete_clienthello_extracts_sni() {
    let ch = fake_clienthello_with_sni("localhost");
    match try_parse(&ch) {
        Parse::Complete {
            server_name,
            _total_len,
            ..
        } => {
            assert_eq!(server_name, Some("localhost"));
            assert_eq!(_total_len, ch.len());
        }
        other => match other {
            Parse::Incomplete => panic!("expected Complete, got Incomplete"),
            Parse::Error(e) => panic!("expected Complete, got Error: {e}"),
            Parse::Complete { .. } => unreachable!(),
        },
    }
}

#[test]
fn non_clienthello_first_byte_is_error() {
    let mut bad = fake_clienthello_with_sni("x");
    bad[0] = 2; // ServerHello
    match try_parse(&bad) {
        Parse::Error(_) => {}
        _ => panic!("expected Error"),
    }
    assert_eq!(refusal(&bad), "first handshake message is not ClientHello");
    // The type is judged as soon as the header is there, and not before.
    assert_eq!(refusal(&bad[..4]), "first handshake message is not ClientHello");
    assert!(matches!(try_parse(&bad[..3]), Parse::Incomplete));
}

#[test]
fn every_shorter_prefix_is_incomplete() {
    let ch = fake_clienthello_with_sni("example.com");
    for len in 0..ch.len() {
        assert!(matches!(try_parse(&ch[..len]), Parse::Incomplete));
    }
}

#[test]
fn bytes_after_the_message_change_nothing() {
    let mut ch = fake_clienthello_with_sni("example.com");
    let len = ch.len();
    ch.extend_from_slice(&[0xff; 20]);
    assert_eq!(complete(&ch), (Some("example.com".to_string()), vec![], len));
    let mut bad = framed(&[0u8; 10]);
    assert_eq!(refusal(&bad), "truncated before session_id");
    bad.extend_from_slice(&[0u8; 100]);
    assert_eq!(refusal(&bad), "truncated before session_id");
}

#[test]
fn length_of_three_bytes_is_big_endian() {
    // One extension of 65000 bytes: the body length needs the middle byte, and the
    // cipher suites bring it over 65535, so that the high byte is needed too.
    let mut body = vec![0x03, 0x03];
    body.extend_from_slice(&[0u8; 32]);
    body.push(0);
    body.extend_from_slice(&[0x10, 0x00]);
    body.extend_from_slice(&[0u8; 0x1000]);
    body.extend_from_slice(&[0x01, 0x00]);
    let ext = extension(0x1234, &[0u8; 65000]);
    body.extend_from_slice(&[(ext.len() >> 8) as u8, ext.len() as u8]);
    body.extend_from_slice(&ext);
    let ch = framed(&body);
    assert_eq!(ch[1], 1);
    assert_eq!(complete(&ch), (None, vec![], 4 + body.len()));
    assert!(matches!(try_parse(&ch[..ch.len() - 1]), Parse::Incomplete));
}

#[test]
fn alpn_is_extracted_in_order() {
    let ch = with_extensions(&alpn(&[b"h3", b"hq-29", b""]));
    assert_eq!(
        complete(&ch),
        (None, vec![b"h3".to_vec(), b"hq-29".to_vec(), vec![]], ch.len())
    );
}

#[test]
fn repeated_extensions_add_up() {
    let mut exts = alpn(&[b"a"]);
    exts.extend_from_slice(&sni(&[(0, b"one.test")]));
    exts.extend_from_slice(&alpn(&[b"b", b"c"]));
    exts.extend_from_slice(&sni(&[(0, b"two.test")]));
    let ch = with_extensions(&exts);
    assert_eq!(
        complete(&ch),
        (
            Some("one.test".to_string()),
            vec![b"a".to_vec(), b"b".to_vec(), b"c".to_vec()],
            ch.len()
        )
    );
}

#[test]
fn other_extensions_are_ignored() {
    let mut exts = extension(43, &[0x02, 0x03, 0x04]);
    exts.extend_from_slice(&sni(&[(0, b"host.test")]));
    exts.extend_from_slice(&extension(0xffff, &[]));
    let ch = with_extensions(&exts);
    assert_eq!(complete(&ch).0, Some("host.test".to_string()));
    assert_eq!(complete(&with_extensions(&[])), (None, vec![], 47));
}

#[test]
fn first_host_name_in_utf8_wins() {
    let ch = with_extensions(&sni(&[
        (1, b"not-a-host"),
        (0, &[0xff, 0xfe]),
        (0, "gr\u{fc}n.test".as_bytes()),
        (0, b"later.test"),
    ]));
    assert_eq!(complete(&ch).0, Some("gr\u{fc}n.test".to_string()));
    let none = with_extensions(&sni(&[(0, &[0xc3]), (7, b"x")]));
    assert_eq!(complete(&none).0, None);
    let empty = with_extensions(&sni(&[(0, b"")]));
    assert_eq!(complete(&empty).0, Some(String::new()));
}

#[test]
fn bytes_after_a_list_are_ignored() {
    let ch = with_extensions(&extension(0, &[0, 4, 0, 0, 1, b'x', 9, 9, 9]));
    assert_eq!(complete(&ch).0, Some("x".to_string()));
    let ch = with_extensions(&extension(16, &[0, 2, 1, b'y', 9]));
    assert_eq!(complete(&ch).1, vec![b"y".to_vec()]);
    let mut body = body_head();
    body.extend_from_slice(&[0, 0, 1, 2, 3]);
    assert_eq!(complete(&framed(&body)), (None, vec![], 50));
}

#[test]
fn truncated_bodies_are_refused_by_field() {
    let body = body_head();
    assert_eq!(refusal(&framed(&[])), "truncated before session_id");
    assert_eq!(refusal(&framed(&body[..33])), "truncated before session_id");
    assert_eq!(refusal(&framed(&body[..34])), "truncated session_id");
    assert_eq!(refusal(&framed(&body[..35])), "truncated cipher_suites");
    assert_eq!(refusal(&framed(&body[..36])), "truncated cipher_suites");
    assert_eq!(refusal(&framed(&body[..38])), "truncated cipher_suites");
    assert_eq!(refusal(&framed(&body[..39])), "truncated compression_methods");
    assert_eq!(refusal(&framed(&body[..40])), "truncated compression_methods");
    assert_eq!(refusal(&framed(&body)), "missing extensions length");
    let mut short = body.clone();
    short.push(0);
    assert_eq!(refusal(&framed(&short)), "missing extensions length");
    let mut long = body.clone();
    long.extend_from_slice(&[0, 1]);
    assert_eq!(refusal(&framed(&long)), "truncated extensions");
}

#[test]
fn malformed_extensions_are_refused() {
    assert_eq!(refusal(&with_extensions(&[0])), "extension header");
    assert_eq!(refusal(&with_extensions(&[0, 0])), "extension length");
    assert_eq!(refusal(&with_extensions(&[0, 0, 0])), "extension length");
    assert_eq!(refusal(&with_extensions(&[0, 0, 0, 1])), "extension body");
    assert_eq!(refusal(&with_extensions(&extension(0, &[]))), "sni list length");
    assert_eq!(refusal(&with_extensions(&extension(0, &[0]))), "sni list length");
    assert_eq!(refusal(&with_extensions(&extension(0, &[0, 1]))), "sni list body");
    assert_eq!(refusal(&with_extensions(&extension(0, &[0, 1, 0]))), "sni name length");
    assert_eq!(refusal(&with_extensions(&extension(0, &[0, 2, 0, 0]))), "sni name length");
    assert_eq!(refusal(&with_extensions(&extension(0, &[0, 3, 0, 0, 1]))), "sni name body");
    assert_eq!(refusal(&with_extensions(&extension(16, &[0]))), "alpn list length");
    assert_eq!(refusal(&with_extensions(&extension(16, &[0, 9]))), "alpn list body");
    assert_eq!(refusal(&with_extensions(&extension(16, &[0, 1, 1]))), "alpn name body");
}

#[test]
fn first_fault_counts() {
    let mut exts = extension(16, &[0, 1, 1]);
    exts.push(0);
    assert_eq!(refusal(&with_extensions(&exts)), "alpn name body");
}

#[test]
fn reader_takes_from_the_front() {
    let bytes = [1u8, 2, 3, 4, 5, 6];
    let mut reader = Reader::new(&bytes);
    assert!(!reader.empty());
    assert_eq!(reader.read_u8(), Ok(1));
    assert_eq!(reader.read_u16(), Ok(0x0203));
    assert_eq!(reader.remaining(), 3);
    assert_eq!(reader.take(4), Err(()));
    assert_eq!(reader.take(2), Ok(&bytes[3..5]));
    assert_eq!(reader.read_u16(), Err(()));
    assert_eq!(reader.skip(1), Ok(()));
    assert_eq!(reader.skip(1), Err(()));
    assert_eq!(reader.read_u8(), Err(()));
    assert!(reader.empty());
}

#[test]
fn reader_skips_fields() {
    let bytes = [2u8, 9, 9, 0, 1, 9, 3, 9];
    let mut reader = Reader::new(&bytes);
    assert_eq!(reader.skip_var(3), Err(()));
    assert_eq!(reader.remaining(), 8);
    assert_eq!(reader.skip_var(1), Ok(()));
    assert_eq!(reader.remaining(), 5);
    assert_eq!(reader.skip_var(2), Ok(()));
    assert_eq!(reader.remaining(), 2);
    // The length is taken although the content is not all there.
    assert_eq!(reader.skip_var(1), Err(()));
    assert_eq!(reader.remaining(), 1);
    assert_eq!(reader.skip_var(2), Err(()));
    assert_eq!(reader.remaining(), 1);
}
