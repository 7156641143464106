use tracker_socket_core::types::{
    convert_ipv4_mapped_ipv6, ChannelRequest, ChannelResponse, ConnectionId, ConsumerId,
    InfoHash, PeerAddr, PeerIp, Request, ScrapeRequest, ScrapeStatistics, StatsMap,
};
use tracker_socket_core::shard::{group_by_shard, plan_dispatch, shard};
use tracker_socket_core::scrape::PendingScrape;
use tracker_socket_core::table::{route_response, ConnectionTable, TableEntry};
use tracker_socket_core::scrape::sorted_stats;
use tracker_socket_core::ws::{
    deadline, next_token, should_sweep, ws_after_write, ws_read_step, ws_write_check,
    WsInMessage, WsReadAction, WsReadEvent, WsWriteCheck, WsWriteResult,
};

fn hash(byte0: u8) -> InfoHash {
    let mut bytes = [0u8; 20];
    bytes[0] = byte0;
    InfoHash { bytes }
}

fn addr(port: u16) -> PeerAddr {
    PeerAddr { ip: PeerIp::V4(0x7f000001), port }
}

fn envelope(conn: usize, port: u16) -> tracker_socket_core::types::ResponseEnvelope {
    tracker_socket_core::types::ResponseEnvelope {
        consumer_id: ConsumerId(0),
        connection_id: ConnectionId(conn),
        peer_addr: addr(port),
    }
}

#[test]
fn shard_is_byte0_mod_workers() {
    // R=4, byte0=0x09: shard = 9 mod 4 = 1.
    assert_eq!(shard(&hash(0x09), 4), 1);
    assert_eq!(shard(&hash(0x00), 4), 0);
    assert_eq!(shard(&hash(0xff), 4), 3);
    assert_eq!(shard(&hash(7), 3), 1);
}

#[test]
fn shard_is_pure() {
    let h = hash(0x42);
    let a = shard(&h, 5);
    let b = shard(&h, 5);
    assert_eq!(a, b);
    // only byte 0 matters
    let mut bytes = [9u8; 20];
    bytes[0] = 0x42;
    assert_eq!(shard(&InfoHash { bytes }, 5), a);
}

#[test]
fn announce_dispatched_to_one_worker() {
    // R=4, byte0=0x09: announce goes to request worker 1 only.
    let req = Request::Announce(tracker_socket_core::types::AnnounceRequest {
        info_hash: hash(0x09),
    });
    let plan = plan_dispatch(req, envelope(3, 1000), 4);
    assert_eq!(plan.messages.len(), 1);
    assert_eq!(plan.messages[0].0, 1);
    assert!(plan.pending_scrape_shards.is_none());
    match &plan.messages[0].1 {
        ChannelRequest::Announce { envelope: e, request } => {
            assert_eq!(e.connection_id, ConnectionId(3));
            assert_eq!(e.peer_addr, addr(1000));
            assert_eq!(request.info_hash.bytes[0], 0x09);
        }
        _ => panic!("expected announce message"),
    }
}

#[test]
fn scrape_grouped_by_shard() {
    // R=3, byte0 in {0x00, 0x03, 0x06, 0x07}: groups 0 -> [0,3,6], 1 -> [7].
    let hashes = vec![hash(0x00), hash(0x03), hash(0x06), hash(0x07)];
    let groups = group_by_shard(&hashes, 3);
    assert_eq!(groups.len(), 2);
    assert_eq!(groups[0].0, 0);
    assert_eq!(
        groups[0].1.iter().map(|h| h.bytes[0]).collect::<Vec<u8>>(),
        vec![0x00, 0x03, 0x06]
    );
    assert_eq!(groups[1].0, 1);
    assert_eq!(
        groups[1].1.iter().map(|h| h.bytes[0]).collect::<Vec<u8>>(),
        vec![0x07]
    );
}

#[test]
fn scrape_plan_two_mesh_messages() {
    let hashes = vec![hash(0x00), hash(0x03), hash(0x06), hash(0x07)];
    let req = Request::Scrape(ScrapeRequest { info_hashes: hashes });
    let plan = plan_dispatch(req, envelope(0, 7), 3);
    assert_eq!(plan.messages.len(), 2);
    assert_eq!(plan.pending_scrape_shards, Some(2));
    // union of the messages' hashes is the request's set
    let mut all: Vec<u8> = Vec::new();
    for (_, msg) in &plan.messages {
        match msg {
            ChannelRequest::Scrape { info_hashes, .. } => {
                for h in info_hashes {
                    all.push(h.bytes[0]);
                }
            }
            _ => panic!("expected scrape message"),
        }
    }
    all.sort();
    assert_eq!(all, vec![0x00, 0x03, 0x06, 0x07]);
}

#[test]
fn empty_scrape_no_mesh_messages() {
    let req = Request::Scrape(ScrapeRequest { info_hashes: vec![] });
    let plan = plan_dispatch(req, envelope(0, 7), 3);
    assert_eq!(plan.messages.len(), 0);
    assert_eq!(plan.pending_scrape_shards, Some(0));
}

#[test]
fn single_shard_scrape_one_message() {
    // all hashes on one shard: exactly one mesh message, pending count 1
    let hashes = vec![hash(0x02), hash(0x05), hash(0x08)];
    let req = Request::Scrape(ScrapeRequest { info_hashes: hashes });
    let plan = plan_dispatch(req, envelope(0, 7), 3);
    assert_eq!(plan.messages.len(), 1);
    assert_eq!(plan.messages[0].0, 2);
    assert_eq!(plan.pending_scrape_shards, Some(1));
    // pending reaches 0 on the first merge
    let mut pending = PendingScrape::new(1);
    let files = StatsMap {
        entries: vec![(hash(0x02), ScrapeStatistics { complete: 1, incomplete: 2 })],
    };
    let done = pending.merge_shard_response(&files);
    assert!(done);
    assert_eq!(pending.pending_worker_responses, 0);
    assert_eq!(pending.stats.entries.len(), 1);
}

fn sorted_entries(m: &StatsMap) -> Vec<([u8; 20], u64, u64)> {
    let mut v: Vec<([u8; 20], u64, u64)> = m
        .entries
        .iter()
        .map(|(h, s)| (h.bytes, s.complete, s.incomplete))
        .collect();
    v.sort();
    v
}

#[test]
fn scrape_merge_is_order_independent() {
    // merging disjoint shard shares commutes over the files map
    let a = StatsMap {
        entries: vec![
            (hash(0x00), ScrapeStatistics { complete: 5, incomplete: 2 }),
            (hash(0x03), ScrapeStatistics { complete: 1, incomplete: 0 }),
        ],
    };
    let b = StatsMap {
        entries: vec![(hash(0x07), ScrapeStatistics { complete: 9, incomplete: 9 })],
    };
    let mut p1 = PendingScrape::new(2);
    p1.merge_shard_response(&a);
    let done1 = p1.merge_shard_response(&b);
    let mut p2 = PendingScrape::new(2);
    p2.merge_shard_response(&b);
    let done2 = p2.merge_shard_response(&a);
    assert!(done1 && done2);
    assert_eq!(sorted_entries(&p1.stats), sorted_entries(&p2.stats));
}

#[test]
fn table_insert_get_remove() {
    let mut t = ConnectionTable::new();
    let e0 = TableEntry { peer_addr: addr(1), valid_until: 10 };
    let e1 = TableEntry { peer_addr: addr(2), valid_until: 20 };
    let id0 = t.insert(e0);
    let id1 = t.insert(e1);
    assert_eq!(id0, ConnectionId(0));
    assert_eq!(id1, ConnectionId(1));
    assert_eq!(t.get(id0).unwrap().peer_addr, addr(1));
    assert_eq!(t.get(id1).unwrap().peer_addr, addr(2));
    assert!(t.remove(id0));
    assert!(t.get(id0).is_none());
    assert!(!t.remove(id0));
    // the vacated id is reused
    let id2 = t.insert(TableEntry { peer_addr: addr(3), valid_until: 30 });
    assert_eq!(id2, ConnectionId(0));
}

#[test]
fn response_after_eviction_is_dropped() {
    // demux: a response for an evicted id goes nowhere; no other
    // connection receives it
    let mut t = ConnectionTable::new();
    let id = t.insert(TableEntry { peer_addr: addr(1), valid_until: 10 });
    let env = envelope(id.0, 1);
    assert_eq!(route_response(&t, env), Some(id));
    t.remove(id);
    assert_eq!(route_response(&t, env), None);
    // a different live connection is never the target
    let other = t.insert(TableEntry { peer_addr: addr(2), valid_until: 10 });
    let stale = envelope(other.0 + 7, 1);
    assert_eq!(route_response(&t, stale), None);
}

#[test]
fn sweep_evicts_expired_only() {
    let mut t = ConnectionTable::new();
    let id_old = t.insert(TableEntry { peer_addr: addr(1), valid_until: 5 });
    let id_new = t.insert(TableEntry { peer_addr: addr(2), valid_until: 10 });
    t.sweep(7);
    assert!(t.get(id_old).is_none());
    assert_eq!(t.get(id_new).unwrap().valid_until, 10);
}

#[test]
fn refresh_moves_deadline() {
    let mut t = ConnectionTable::new();
    let id = t.insert(TableEntry { peer_addr: addr(1), valid_until: 5 });
    assert!(t.refresh(id, 50));
    t.sweep(7);
    assert_eq!(t.get(id).unwrap().valid_until, 50);
    assert!(!t.refresh(ConnectionId(9), 60));
}

#[test]
fn sweep_cadence_and_deadline() {
    assert!(should_sweep(0));
    assert!(!should_sweep(1));
    assert!(!should_sweep(127));
    assert!(should_sweep(128));
    assert_eq!(deadline(100, 30), 130);
    assert_eq!(deadline(u64::MAX - 3, 10), u64::MAX);
}

#[test]
fn tokens_skip_reserved_values() {
    assert_eq!(next_token(0), 2);
    assert_eq!(next_token(usize::MAX), 2);
    assert_eq!(next_token(2), 3);
    assert_eq!(next_token(41), 42);
}

#[test]
fn ws_read_decisions() {
    let allowed = ws_read_step(&WsReadEvent::Message(WsInMessage::Announce(hash(1))), true);
    assert_eq!(allowed, WsReadAction::Forward);
    let denied = ws_read_step(&WsReadEvent::Message(WsInMessage::Announce(hash(1))), false);
    assert_eq!(denied, WsReadAction::RejectNotAllowed);
    let other = ws_read_step(&WsReadEvent::Message(WsInMessage::OtherRequest), false);
    assert_eq!(other, WsReadAction::Forward);
    let bad = ws_read_step(&WsReadEvent::Message(WsInMessage::Malformed), true);
    assert_eq!(bad, WsReadAction::RejectMalformed);
    assert_eq!(ws_read_step(&WsReadEvent::WouldBlock, true), WsReadAction::StopReading);
    assert_eq!(ws_read_step(&WsReadEvent::Closed, true), WsReadAction::RemoveAndStop);
    assert_eq!(ws_read_step(&WsReadEvent::Error, true), WsReadAction::RemoveAndStop);
}

#[test]
fn ws_write_guard_and_cleanup() {
    // a peer-address mismatch on an established connection is fatal
    assert_eq!(ws_write_check(true, &addr(5), &addr(5)), WsWriteCheck::Write);
    assert_eq!(ws_write_check(true, &addr(5), &addr(6)), WsWriteCheck::Mismatch);
    assert_eq!(ws_write_check(false, &addr(5), &addr(5)), WsWriteCheck::Skip);
    assert!(!ws_after_write(&WsWriteResult::Written));
    assert!(!ws_after_write(&WsWriteResult::WouldBlock));
    assert!(ws_after_write(&WsWriteResult::Closed));
    assert!(ws_after_write(&WsWriteResult::Failed));
}

#[test]
fn v4_mapped_v6_is_unwrapped() {
    let mapped = PeerIp::V6(0xffff_7f00_0001);
    assert_eq!(convert_ipv4_mapped_ipv6(mapped), PeerIp::V4(0x7f00_0001));
    let plain6 = PeerIp::V6(0x2001_0db8 << 96);
    assert_eq!(convert_ipv4_mapped_ipv6(plain6), plain6);
    let v4 = PeerIp::V4(1);
    assert_eq!(convert_ipv4_mapped_ipv6(v4), v4);
}

#[test]
fn channel_response_carries_envelope() {
    let env = envelope(4, 9);
    let r = ChannelResponse::Announce { envelope: env, body: vec![1, 2, 3] };
    assert_eq!(r.envelope(), env);
}

#[test]
fn sorted_stats_orders_and_dedups() {
    let m = StatsMap {
        entries: vec![
            (hash(0x07), ScrapeStatistics { complete: 9, incomplete: 9 }),
            (hash(0x00), ScrapeStatistics { complete: 5, incomplete: 2 }),
            (hash(0x07), ScrapeStatistics { complete: 10, incomplete: 1 }),
        ],
    };
    let sorted = sorted_stats(&m);
    // one entry per key, ascending, the later duplicate winning
    assert_eq!(sorted.entries.len(), 2);
    assert_eq!(sorted.entries[0].0.bytes[0], 0x00);
    assert_eq!(sorted.entries[1].0.bytes[0], 0x07);
    assert_eq!(sorted.entries[1].1, ScrapeStatistics { complete: 10, incomplete: 1 });
}
