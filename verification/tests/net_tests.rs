use kernel_core::dns::{begin_resolve, build_query, parse_response, skip_name, DnsCache, ResolveStart};
use kernel_core::http::{content_length, decode_chunked, is_chunked, ChunkedError, TcpError};
use kernel_core::tcp::{
    blocking_read_step, blocking_write_step, read_gate, write_gate, IoGate, TcpControl, LOCAL_PORT_BASE, LOCAL_PORT_TOP,
};

fn response(txid: u16, answers: &[(&[u8], u16, u16, &[u8])]) -> Vec<u8> {
    let mut v = Vec::new();
    v.extend_from_slice(&txid.to_be_bytes());
    v.extend_from_slice(&0x8180u16.to_be_bytes());
    v.extend_from_slice(&1u16.to_be_bytes());
    v.extend_from_slice(&(answers.len() as u16).to_be_bytes());
    v.extend_from_slice(&[0, 0, 0, 0]);
    // question: example.com A IN
    v.extend_from_slice(&[7, b'e', b'x', b'a', b'm', b'p', b'l', b'e', 3, b'c', b'o', b'm', 0, 0, 1, 0, 1]);
    for (name, t, c, data) in answers {
        v.extend_from_slice(name);
        v.extend_from_slice(&t.to_be_bytes());
        v.extend_from_slice(&c.to_be_bytes());
        v.extend_from_slice(&[0, 0, 0, 60]);
        v.extend_from_slice(&(data.len() as u16).to_be_bytes());
        v.extend_from_slice(data);
    }
    v
}

#[test]
fn dns_query_encoding() {
    let mut out = [0u8; 512];
    let n = build_query("example.com", 0x1234, &mut out).unwrap();
    assert_eq!(n, 12 + 13 + 4);
    assert_eq!(&out[0..4], &[0x12, 0x34, 0x01, 0x00]);
    assert_eq!(&out[4..12], &[0, 1, 0, 0, 0, 0, 0, 0]);
    assert_eq!(&out[12..25], &[7, b'e', b'x', b'a', b'm', b'p', b'l', b'e', 3, b'c', b'o', b'm', 0]);
    assert_eq!(&out[25..29], &[0, 1, 0, 1]);
    assert!(build_query("bad..name", 1, &mut out).is_none());
    assert!(build_query("", 1, &mut out).is_none());
    assert!(build_query("trailing.", 1, &mut out).is_none());
    let long = "a".repeat(64);
    assert!(build_query(&long, 1, &mut out).is_none());
    let mut tiny = [0u8; 10];
    assert!(build_query("example.com", 1, &mut tiny).is_none());
}

#[test]
fn dns_skip_name_forms() {
    assert_eq!(skip_name(&[3, b'a', b'b', b'c', 0], 0), Some(5));
    assert_eq!(skip_name(&[0xC0, 0x0C], 0), Some(2));
    assert_eq!(skip_name(&[3, b'a'], 0), None);
    let mut looping = vec![];
    for _ in 0..200 {
        looping.push(1);
        looping.push(b'x');
    }
    assert_eq!(skip_name(&looping, 0), None);
}

#[test]
fn dns_parse_first_a_record() {
    let r = response(0xBEEF, &[(&[0xC0, 0x0C], 5, 1, &[3, b'f', b'o', b'o', 0]), (&[0xC0, 0x0C], 1, 1, &[93, 184, 216, 34])]);
    assert_eq!(parse_response(&r, 0xBEEF), Some([93, 184, 216, 34]));
    assert_eq!(parse_response(&r, 0xBEEE), None);
    let none = response(0xBEEF, &[(&[0xC0, 0x0C], 28, 1, &[0; 16])]);
    assert_eq!(parse_response(&none, 0xBEEF), None);
    let mut truncated = r.clone();
    truncated.truncate(r.len() - 2);
    assert_eq!(parse_response(&truncated, 0xBEEF), None);
    let mut err = r.clone();
    err[3] = 0x83;
    assert_eq!(parse_response(&err, 0xBEEF), None);
    assert_eq!(parse_response(&r[..11], 0xBEEF), None);
}

#[test]
fn dns_cache_and_resolution_steps() {
    let mut cache = DnsCache::new();
    assert_eq!(cache.lookup("example.com"), None);
    cache.insert("example.com", [1, 2, 3, 4]);
    assert_eq!(cache.lookup("example.com"), Some([1, 2, 3, 4]));
    cache.insert("example.com", [5, 6, 7, 8]);
    assert_eq!(cache.lookup("example.com"), Some([5, 6, 7, 8]));
    for k in 0..8 {
        cache.insert(&format!("h{}.test", k), [k as u8, 0, 0, 0]);
    }
    // The cache was full: the round-robin victim (slot 0) was replaced.
    assert_eq!(cache.lookup("example.com"), None);
    let long = "x".repeat(65);
    cache.insert(&long, [9, 9, 9, 9]);
    assert_eq!(cache.lookup(&long), None);

    match begin_resolve(&cache, "h3.test", true, 0, 100) {
        ResolveStart::Cached(ip) => assert_eq!(ip, [3, 0, 0, 0]),
        _ => panic!("expected a cache hit"),
    }
    assert!(matches!(begin_resolve(&cache, "other.test", false, 0, 100), ResolveStart::Failed));
    match begin_resolve(&cache, "example.com", true, 0x1111, 100) {
        ResolveStart::Query { query, mut state } => {
            assert_eq!(state.txid, 0x1111 ^ 0x5EED);
            assert_eq!(&query[0..2], &state.txid.to_be_bytes());
            assert_eq!(state.deadline, 0x1111 + 300);
            assert_eq!(state.resend_ticks, 25);
            let s = state.step(None, 0x1111 + 10);
            assert!(!s.done && !s.resend);
            let s = state.step(None, 0x1111 + 30);
            assert!(!s.done && s.resend);
            let reply = response(state.txid, &[(&[0xC0, 0x0C], 1, 1, &[10, 0, 2, 15])]);
            let s = state.step(Some(&reply), 0x1111 + 40);
            assert!(s.done);
            assert_eq!(s.address, Some([10, 0, 2, 15]));
            let s = state.step(None, 0x1111 + 400);
            assert!(s.done && s.address.is_none());
        }
        _ => panic!("expected a query"),
    }
}

#[test]
fn chunked_body_decodes() {
    let input = b"4\r\nWiki\r\n5;ext=1\r\npedia\r\nE\r\n in\r\n\r\nchunks.\r\n0\r\nTrailer: x\r\n\r\n";
    let mut out = [0u8; 64];
    let n = decode_chunked(input, &mut out).unwrap();
    assert_eq!(&out[..n], b"Wikipedia in\r\n\r\nchunks.");
}

#[test]
fn chunked_errors() {
    let mut out = [0u8; 8];
    assert_eq!(decode_chunked(b"4\r\nWi", &mut out), Err(ChunkedError::TruncatedChunkData));
    assert_eq!(decode_chunked(b"4", &mut out), Err(ChunkedError::UnterminatedSizeLine));
    assert_eq!(decode_chunked(b"zz\r\n", &mut out), Err(ChunkedError::InvalidChunkSize));
    assert_eq!(decode_chunked(b"2\r\nabXY", &mut out), Err(ChunkedError::MissingChunkCrlf));
    assert_eq!(decode_chunked(b"9\r\n123456789\r\n0\r\n\r\n", &mut out), Err(ChunkedError::OutputTooSmall));
    assert_eq!(decode_chunked(b" a \r\n0123456789\r\n0\r\n", &mut [0u8; 16]), Ok(10));
}

#[test]
fn header_fields() {
    let h = b"HTTP/1.1 200 OK\r\nTransfer-Encoding: gzip, Chunked\r\n\r\n";
    assert!(is_chunked(h));
    assert!(!is_chunked(b"HTTP/1.1 200 OK\r\nContent-Length: 5\r\n\r\n"));
    assert_eq!(content_length(b"HTTP/1.1 200 OK\r\nContent-Length: 42\r\n\r\n"), Some(42));
    assert_eq!(content_length(b"HTTP/1.1 200 OK\r\ncontent-length:  7 \r\n"), Some(7));
    assert_eq!(content_length(b"HTTP/1.1 200 OK\r\nX-Content-Length: 42\r\n\r\n"), None);
    assert_eq!(content_length(b"HTTP/1.1 200 OK\r\nContent-Length: 4x\r\n\r\n"), None);
    assert_eq!(content_length(b"HTTP/1.1 200 OK\r\nContent-Length: \r\n\r\n"), None);
    assert_eq!(content_length(b"HTTP/1.1 200 OK\r\nContent-Length: 99999999999999999999999\r\n"), None);
}

#[test]
fn ephemeral_ports_rotate_and_wrap() {
    let mut c = TcpControl::new();
    assert_eq!(c.next_local_port(), LOCAL_PORT_BASE);
    assert_eq!(c.next_local_port(), LOCAL_PORT_BASE + 1);
    c.next_port = LOCAL_PORT_TOP;
    assert_eq!(c.next_local_port(), LOCAL_PORT_TOP);
    assert_eq!(c.next_local_port(), LOCAL_PORT_BASE);
}

#[test]
fn connect_admission() {
    let mut c = TcpControl::new();
    assert_eq!(c.admit_connect(false), Err(TcpError::NotInitialized));
    assert_eq!(c.admit_connect(true), Ok(()));
    c.mark_connected();
    assert_eq!(c.admit_connect(true), Err(TcpError::SocketBusy));
    c.release();
    assert_eq!(c.admit_connect(true), Ok(()));
}

#[test]
fn socket_gates() {
    assert_eq!(read_gate(false, true), Err(TcpError::Eof));
    assert_eq!(read_gate(true, false), Ok(IoGate::Wait));
    assert_eq!(read_gate(true, true), Ok(IoGate::Transfer));
    assert_eq!(write_gate(false, true), Err(TcpError::NotConnected));
    assert_eq!(write_gate(true, false), Ok(IoGate::Wait));
    assert_eq!(write_gate(true, true), Ok(IoGate::Transfer));
}

#[test]
fn blocking_io_rounds() {
    assert_eq!(blocking_read_step(Ok(5), false, 0, 0), Some(Ok(5)));
    assert_eq!(blocking_read_step(Ok(0), false, 100, 200), None);
    assert_eq!(blocking_read_step(Ok(0), true, 100, 200), Some(Ok(0)));
    assert_eq!(blocking_read_step(Ok(0), false, 100, 3100), Some(Ok(0)));
    // The tick counter wraps.
    assert_eq!(blocking_read_step(Ok(0), false, u64::MAX - 10, 5), None);
    assert_eq!(blocking_read_step(Ok(0), false, u64::MAX - 10, 3000), Some(Ok(0)));
    assert_eq!(blocking_read_step(Err(TcpError::Eof), false, 0, 0), Some(Ok(0)));
    assert_eq!(blocking_read_step(Err(TcpError::NotConnected), false, 0, 0), Some(Err(TcpError::NotConnected)));
    assert_eq!(blocking_write_step(Ok(3), false, 0, 0), Some(Ok(3)));
    assert_eq!(blocking_write_step(Ok(0), false, 0, 10), None);
    assert_eq!(blocking_write_step(Ok(0), true, 0, 10), Some(Err(TcpError::NotConnected)));
    assert_eq!(blocking_write_step(Ok(0), false, 0, 3000), Some(Err(TcpError::NotConnected)));
    assert_eq!(blocking_write_step(Err(TcpError::Eof), false, 0, 0), Some(Err(TcpError::Eof)));
}

#[test]
fn chunked_missing_final_chunk() {
    let mut out = [0u8; 16];
    assert_eq!(decode_chunked(b"3\r\nabc\r\n", &mut out), Err(ChunkedError::MissingFinalChunk));
    assert_eq!(decode_chunked(b"", &mut out), Err(ChunkedError::MissingFinalChunk));
}

#[test]
fn chunked_leaves_tail_of_output() {
    let input = b"4\r\nWiki\r\n5;name=value\r\npedia\r\n0\r\nX-T: 1\r\n\r\n";
    let mut out = [0xAAu8; 16];
    assert_eq!(decode_chunked(input, &mut out), Ok(9));
    assert_eq!(&out[..9], b"Wikipedia");
    assert_eq!(out[9..], [0xAAu8; 7]);
}

#[test]
fn cache_answers_until_replaced() {
    let mut cache = DnsCache::new();
    cache.insert("a.example", [1, 1, 1, 1]);
    assert_eq!(cache.lookup("a.example"), Some([1, 1, 1, 1]));
    assert_eq!(cache.lookup("a.example"), Some([1, 1, 1, 1]));
    for k in 0..7u8 {
        let name = format!("h{}.example", k);
        cache.insert(&name, [k, 0, 0, 1]);
        assert_eq!(cache.lookup("a.example"), Some([1, 1, 1, 1]));
    }
    cache.insert("a.example", [2, 2, 2, 2]);
    assert_eq!(cache.lookup("a.example"), Some([2, 2, 2, 2]));
    cache.insert("late.example", [9, 9, 9, 9]);
    assert_eq!(cache.lookup("late.example"), Some([9, 9, 9, 9]));
    assert_eq!(cache.lookup("a.example"), None);
}
