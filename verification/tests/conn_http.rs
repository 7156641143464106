use tracker_socket_core::types::{
    AnnounceRequest, ChannelResponse, ConnectionId, ConsumerId, InfoHash, PeerAddr, PeerIp,
    Request, ScrapeRequest, ScrapeStatistics, StatsMap,
};
use tracker_socket_core::codec::{encode_request, parse_request, ParseOutcome};
use tracker_socket_core::conn::{ConnState, Connection, ReadOutcome, ResponseOutcome};
use tracker_socket_core::http::{failure_body, http_response_bytes, scrape_body};

fn hash(byte0: u8) -> InfoHash {
    let mut bytes = [0u8; 20];
    bytes[0] = byte0;
    InfoHash { bytes }
}

fn addr(port: u16) -> PeerAddr {
    PeerAddr { ip: PeerIp::V4(0x7f000001), port }
}

fn reading_conn(keep_alive: bool, workers: usize) -> Connection {
    let mut c = Connection::new(ConnectionId(0), ConsumerId(0), addr(80), keep_alive, workers);
    assert_eq!(c.state, ConnState::TlsHandshaking);
    c.on_handshake_complete();
    assert_eq!(c.state, ConnState::Reading);
    c
}

fn announce_env(c: &Connection) -> tracker_socket_core::types::ResponseEnvelope {
    tracker_socket_core::types::ResponseEnvelope {
        consumer_id: c.consumer_id,
        connection_id: c.connection_id,
        peer_addr: c.peer_addr,
    }
}

#[test]
fn content_length_is_body_len_plus_two() {
    let body: Vec<u8> = b"d8:completei5e10:incompletei2ee".to_vec();
    let framed = http_response_bytes(&body);
    let expect_prefix = format!("HTTP/1.1 200 OK\r\nContent-Length: {}\r\n\r\n", body.len() + 2);
    assert!(framed.starts_with(expect_prefix.as_bytes()));
    assert!(framed.ends_with(b"ee\r\n"));
    assert_eq!(framed.len(), expect_prefix.len() + body.len() + 2);
}

#[test]
fn body_of_24_bytes_yields_content_length_26() {
    let body: Vec<u8> = vec![b'x'; 24];
    let framed = http_response_bytes(&body);
    let mut expected: Vec<u8> = b"HTTP/1.1 200 OK\r\nContent-Length: 26\r\n\r\n".to_vec();
    expected.extend_from_slice(&body);
    expected.extend_from_slice(b"\r\n");
    assert_eq!(framed, expected);
}

#[test]
fn multi_digit_content_length() {
    let body: Vec<u8> = vec![0x78; 98];
    let framed = http_response_bytes(&body);
    assert!(framed.starts_with(b"HTTP/1.1 200 OK\r\nContent-Length: 100\r\n\r\n"));
}

#[test]
fn failure_body_spells_reason() {
    let body = failure_body(&b"Invalid request".to_vec());
    assert_eq!(body, b"d14:failure reason15:Invalid requeste".to_vec());
}

#[test]
fn scrape_body_encodes_entries() {
    let empty = StatsMap { entries: vec![] };
    assert_eq!(scrape_body(&empty), b"d5:filesdee".to_vec());
    let one = StatsMap {
        entries: vec![(hash(0x41), ScrapeStatistics { complete: 5, incomplete: 2 })],
    };
    let got = scrape_body(&one);
    let mut expected: Vec<u8> = b"d5:filesd20:".to_vec();
    expected.push(0x41);
    expected.extend_from_slice(&[0u8; 19]);
    expected.extend_from_slice(b"d8:completei5e10:incompletei2ee");
    expected.extend_from_slice(b"ee");
    assert_eq!(got, expected);
}

#[test]
fn round_trip_announce() {
    let req = Request::Announce(AnnounceRequest { info_hash: hash(0x09) });
    let bytes = encode_request(&req);
    match parse_request(&bytes) {
        ParseOutcome::Parsed { request, consumed } => {
            assert_eq!(consumed, bytes.len());
            match request {
                Request::Announce(a) => assert_eq!(a.info_hash.bytes, hash(0x09).bytes),
                _ => panic!("parsed the wrong kind"),
            }
        }
        _ => panic!("expected a parse"),
    }
}

#[test]
fn round_trip_scrape() {
    let mut h2 = hash(0x10);
    h2.bytes[19] = 0xfe;
    let req = Request::Scrape(ScrapeRequest { info_hashes: vec![hash(0x09), h2] });
    let bytes = encode_request(&req);
    match parse_request(&bytes) {
        ParseOutcome::Parsed { request, consumed } => {
            assert_eq!(consumed, bytes.len());
            match request {
                Request::Scrape(sc) => {
                    assert_eq!(sc.info_hashes.len(), 2);
                    assert_eq!(sc.info_hashes[0].bytes, hash(0x09).bytes);
                    assert_eq!(sc.info_hashes[1].bytes, h2.bytes);
                }
                _ => panic!("parsed the wrong kind"),
            }
        }
        _ => panic!("expected a parse"),
    }
}

#[test]
fn parse_needs_terminator() {
    let req = Request::Announce(AnnounceRequest { info_hash: hash(0x01) });
    let bytes = encode_request(&req);
    for cut in [1usize, 5, bytes.len() - 1] {
        let partial = bytes[..cut].to_vec();
        assert!(matches!(parse_request(&partial), ParseOutcome::NeedMoreData));
    }
}

#[test]
fn parse_rejects_garbage_and_uppercase_hex() {
    let garbage = b"POST /announce HTTP/1.1\r\n\r\n".to_vec();
    assert!(matches!(parse_request(&garbage), ParseOutcome::Invalid));
    let req = Request::Announce(AnnounceRequest { info_hash: hash(0xab) });
    let mut bytes = encode_request(&req);
    // uppercase one hex digit: the canonical grammar is lowercase only
    let pos = 24;
    bytes[pos] = bytes[pos].to_ascii_uppercase();
    assert!(matches!(parse_request(&bytes), ParseOutcome::Invalid));
}

#[test]
fn split_reads_one_dispatch() {
    // record split across two reads: 5 bytes then the remainder;
    // NeedMoreData after the first, exactly one dispatched request
    let mut c = reading_conn(true, 4);
    let req = Request::Announce(AnnounceRequest { info_hash: hash(0x09) });
    let bytes = encode_request(&req);
    c.on_plaintext(&bytes[..5].to_vec());
    let (out1, msgs1) = c.poll_request();
    assert_eq!(out1, ReadOutcome::NeedMoreData);
    assert!(msgs1.is_empty());
    c.on_plaintext(&bytes[5..].to_vec());
    let (out2, msgs2) = c.poll_request();
    assert_eq!(out2, ReadOutcome::Dispatched);
    assert_eq!(msgs2.len(), 1);
    assert_eq!(msgs2[0].0, 1);
    assert_eq!(c.state, ConnState::AwaitingResponse);
    // no further request until a response arrives
    let (out3, msgs3) = c.poll_request();
    assert_eq!(out3, ReadOutcome::NotReading);
    assert!(msgs3.is_empty());
}

#[test]
fn byte_by_byte_feed_parses_identically() {
    let req = Request::Announce(AnnounceRequest { info_hash: hash(0x5a) });
    let bytes = encode_request(&req);
    let mut c = reading_conn(true, 2);
    for (i, b) in bytes.iter().enumerate() {
        c.on_plaintext(&vec![*b]);
        let (out, msgs) = c.poll_request();
        if i + 1 < bytes.len() {
            assert_eq!(out, ReadOutcome::NeedMoreData);
            assert!(msgs.is_empty());
        } else {
            assert_eq!(out, ReadOutcome::Dispatched);
            assert_eq!(msgs.len(), 1);
            assert_eq!(msgs[0].0, (0x5a % 2) as usize);
        }
    }
}

#[test]
fn pipelined_requests_answered_in_order() {
    // two requests in one segment: both parsed, answered in order
    let mut c = reading_conn(true, 4);
    let r1 = Request::Announce(AnnounceRequest { info_hash: hash(0x01) });
    let r2 = Request::Announce(AnnounceRequest { info_hash: hash(0x02) });
    let mut segment = encode_request(&r1);
    segment.extend_from_slice(&encode_request(&r2));
    c.on_plaintext(&segment);

    let (out1, msgs1) = c.poll_request();
    assert_eq!(out1, ReadOutcome::Dispatched);
    assert_eq!(msgs1.len(), 1);
    let resp1 = ChannelResponse::Announce { envelope: announce_env(&c), body: b"first".to_vec() };
    assert_eq!(c.on_channel_response(resp1), ResponseOutcome::Completed);

    let (out2, msgs2) = c.poll_request();
    assert_eq!(out2, ReadOutcome::Dispatched);
    assert_eq!(msgs2.len(), 1);
    let resp2 = ChannelResponse::Announce { envelope: announce_env(&c), body: b"second".to_vec() };
    assert_eq!(c.on_channel_response(resp2), ResponseOutcome::Completed);

    // response bytes are in order and never interleaved
    let first = http_response_bytes(&b"first".to_vec());
    let second = http_response_bytes(&b"second".to_vec());
    let mut expected = first.clone();
    expected.extend_from_slice(&second);
    assert_eq!(c.out_bytes, expected);
}

#[test]
fn at_most_one_response_per_request() {
    let mut c = reading_conn(true, 4);
    let bytes = encode_request(&Request::Announce(AnnounceRequest { info_hash: hash(0x01) }));
    c.on_plaintext(&bytes);
    let (_, msgs) = c.poll_request();
    assert_eq!(msgs.len(), 1);
    let env = announce_env(&c);
    let resp = ChannelResponse::Announce { envelope: env, body: b"once".to_vec() };
    assert_eq!(c.on_channel_response(resp), ResponseOutcome::Completed);
    let written = c.out_bytes.clone();
    // a duplicate delivery queues nothing more
    let dup = ChannelResponse::Announce { envelope: env, body: b"again".to_vec() };
    assert_eq!(c.on_channel_response(dup), ResponseOutcome::Unexpected);
    assert_eq!(c.out_bytes, written);
}

#[test]
fn peer_addr_mismatch_is_fatal() {
    let mut c = reading_conn(true, 4);
    let bytes = encode_request(&Request::Announce(AnnounceRequest { info_hash: hash(0x01) }));
    c.on_plaintext(&bytes);
    c.poll_request();
    let mut env = announce_env(&c);
    env.peer_addr = addr(9999);
    let resp = ChannelResponse::Announce { envelope: env, body: b"stray".to_vec() };
    assert_eq!(c.on_channel_response(resp), ResponseOutcome::PeerAddrMismatch);
    assert_eq!(c.state, ConnState::Closed);
    assert!(c.out_bytes.is_empty());
}

#[test]
fn multi_shard_scrape_merges_to_one_response() {
    // R=3, hashes on shards 0 and 1: two mesh messages, one response
    let mut c = reading_conn(true, 3);
    let req = Request::Scrape(ScrapeRequest {
        info_hashes: vec![hash(0x00), hash(0x03), hash(0x06), hash(0x07)],
    });
    let bytes = encode_request(&req);
    c.on_plaintext(&bytes);
    let (out, msgs) = c.poll_request();
    assert_eq!(out, ReadOutcome::Dispatched);
    assert_eq!(msgs.len(), 2);

    let env = announce_env(&c);
    let share0 = StatsMap {
        entries: vec![
            (hash(0x00), ScrapeStatistics { complete: 5, incomplete: 2 }),
            (hash(0x03), ScrapeStatistics { complete: 0, incomplete: 1 }),
        ],
    };
    let share1 = StatsMap {
        entries: vec![(hash(0x07), ScrapeStatistics { complete: 3, incomplete: 4 })],
    };
    let r0 = ChannelResponse::Scrape { envelope: env, files: share0 };
    assert_eq!(c.on_channel_response(r0), ResponseOutcome::PendingMore);
    assert!(c.out_bytes.is_empty());
    let r1 = ChannelResponse::Scrape { envelope: env, files: share1 };
    assert_eq!(c.on_channel_response(r1), ResponseOutcome::Completed);
    assert!(!c.out_bytes.is_empty());
    assert_eq!(c.state, ConnState::Reading);
    // the merged body holds all three swarms
    let body_start = c.out_bytes.windows(4).position(|w| w == b"\r\n\r\n").unwrap() + 4;
    let body = &c.out_bytes[body_start..c.out_bytes.len() - 2];
    assert!(body.starts_with(b"d5:filesd"));
    assert!(body.ends_with(b"ee"));
    assert_eq!(body.windows(12).filter(|w| w == b"d8:completei").count(), 3);
}

#[test]
fn scrape_response_without_pending_is_fatal() {
    let mut c = reading_conn(true, 4);
    let bytes = encode_request(&Request::Announce(AnnounceRequest { info_hash: hash(0x01) }));
    c.on_plaintext(&bytes);
    c.poll_request();
    let env = announce_env(&c);
    let stray = ChannelResponse::Scrape { envelope: env, files: StatsMap { entries: vec![] } };
    assert_eq!(c.on_channel_response(stray), ResponseOutcome::Unexpected);
    assert_eq!(c.state, ConnState::Closed);
}

#[test]
fn empty_scrape_answered_immediately() {
    // no mesh messages; respond with empty files
    let mut c = reading_conn(true, 3);
    let msgs = c.handle_request(Request::Scrape(ScrapeRequest { info_hashes: vec![] }));
    assert!(msgs.is_empty());
    assert_eq!(c.state, ConnState::Reading);
    let mut expected: Vec<u8> = b"HTTP/1.1 200 OK\r\nContent-Length: 13\r\n\r\n".to_vec();
    expected.extend_from_slice(b"d5:filesdee\r\n");
    assert_eq!(c.out_bytes, expected);
}

#[test]
fn invalid_request_gets_failure_then_close() {
    let mut c = reading_conn(true, 4);
    c.on_plaintext(&b"GET /other HTTP/1.1\r\n\r\n".to_vec());
    let (out, msgs) = c.poll_request();
    assert_eq!(out, ReadOutcome::Rejected);
    assert!(msgs.is_empty());
    assert!(c.close_after_writing);
    let mut expected: Vec<u8> = b"HTTP/1.1 200 OK\r\nContent-Length: 39\r\n\r\n".to_vec();
    expected.extend_from_slice(b"d14:failure reason15:Invalid requeste\r\n");
    assert_eq!(c.out_bytes, expected);
}

#[test]
fn close_during_handshake_is_silent() {
    // peer closes during the TLS handshake: dropped silently
    let mut c = Connection::new(ConnectionId(0), ConsumerId(0), addr(80), true, 4);
    c.on_peer_closed();
    assert_eq!(c.state, ConnState::Closed);
    assert!(c.out_bytes.is_empty());
    // a failed handshake is equally silent
    let mut d = Connection::new(ConnectionId(1), ConsumerId(0), addr(81), true, 4);
    d.on_tls_handshake_failed();
    assert_eq!(d.state, ConnState::Closed);
    assert!(d.out_bytes.is_empty());
}

#[test]
fn close_between_requests_is_graceful() {
    // keep-alive connection, peer closes between requests: graceful
    let mut c = reading_conn(true, 4);
    c.on_peer_closed();
    assert!(c.close_after_writing);
    assert_eq!(c.state, ConnState::Reading);
    assert!(c.out_bytes.is_empty());
}

#[test]
fn no_reads_after_close_flag() {
    let mut c = reading_conn(false, 4);
    let bytes = encode_request(&Request::Announce(AnnounceRequest { info_hash: hash(0x01) }));
    c.on_plaintext(&bytes);
    c.poll_request();
    let env = announce_env(&c);
    let resp = ChannelResponse::Announce { envelope: env, body: b"only".to_vec() };
    assert_eq!(c.on_channel_response(resp), ResponseOutcome::Completed);
    // keep_alive=false: marked to close after the in-flight response
    assert!(c.close_after_writing);
    let buffered = c.request_buffer.clone();
    let queued = c.out_bytes.clone();
    c.on_plaintext(&b"GET ".to_vec());
    assert_eq!(c.request_buffer, buffered);
    let (out, msgs) = c.poll_request();
    assert_eq!(out, ReadOutcome::NotReading);
    assert!(msgs.is_empty());
    assert_eq!(c.out_bytes, queued);
}

#[test]
fn backpressured_dispatch_keeps_connection_open() {
    // the mesh send is non-blocking: when a worker's channel is full
    // the message is dropped and logged, and the connection stays
    // open, awaiting eviction or more traffic
    let mut c = reading_conn(true, 4);
    let bytes = encode_request(&Request::Announce(AnnounceRequest { info_hash: hash(0x01) }));
    c.on_plaintext(&bytes);
    let (out, msgs) = c.poll_request();
    assert_eq!(out, ReadOutcome::Dispatched);
    assert_eq!(msgs.len(), 1);
    // the worker drops msgs[0] on Backpressured; nothing else changes
    assert_eq!(c.state, ConnState::AwaitingResponse);
    assert!(!c.close_after_writing);
    assert!(c.out_bytes.is_empty());
}

#[test]
fn requests_ignored_while_awaiting() {
    let mut c = reading_conn(true, 4);
    let bytes = encode_request(&Request::Announce(AnnounceRequest { info_hash: hash(0x01) }));
    c.on_plaintext(&bytes);
    c.poll_request();
    assert_eq!(c.state, ConnState::AwaitingResponse);
    // a request handed in while awaiting a response changes nothing
    let msgs = c.handle_request(Request::Announce(AnnounceRequest { info_hash: hash(0x02) }));
    assert!(msgs.is_empty());
    assert_eq!(c.state, ConnState::AwaitingResponse);
    assert!(c.out_bytes.is_empty());
}

#[test]
fn stats_map_starts_empty() {
    let m = StatsMap::new();
    assert_eq!(m.len(), 0);
    assert!(m.entries.is_empty());
}

#[test]
fn scrape_response_bytes_are_arrival_order_independent() {
    // the serialized scrape response is sorted by key: both arrival
    // orders of the shard shares give the same bytes
    let request = Request::Scrape(ScrapeRequest {
        info_hashes: vec![hash(0x00), hash(0x07)],
    });
    let share0 = StatsMap {
        entries: vec![(hash(0x00), ScrapeStatistics { complete: 5, incomplete: 2 })],
    };
    let share1 = StatsMap {
        entries: vec![(hash(0x07), ScrapeStatistics { complete: 3, incomplete: 4 })],
    };
    let mut outputs: Vec<Vec<u8>> = Vec::new();
    for flip in [false, true] {
        let mut c = reading_conn(true, 3);
        c.on_plaintext(&encode_request(&request));
        let (out, msgs) = c.poll_request();
        assert_eq!(out, ReadOutcome::Dispatched);
        assert_eq!(msgs.len(), 2);
        let env = announce_env(&c);
        let (first, second) = if flip {
            (share1.clone(), share0.clone())
        } else {
            (share0.clone(), share1.clone())
        };
        assert_eq!(
            c.on_channel_response(ChannelResponse::Scrape { envelope: env, files: first }),
            ResponseOutcome::PendingMore
        );
        assert_eq!(
            c.on_channel_response(ChannelResponse::Scrape { envelope: env, files: second }),
            ResponseOutcome::Completed
        );
        outputs.push(c.out_bytes.clone());
    }
    assert_eq!(outputs[0], outputs[1]);
    // and the entries appear in key order on the wire
    let body_start = outputs[0].windows(4).position(|w| w == b"\r\n\r\n").unwrap() + 4;
    let body = &outputs[0][body_start..];
    let pos0 = body.iter().position(|b| *b == 0x00).unwrap();
    assert!(body[pos0..].starts_with(&[0x00; 20]));
}
