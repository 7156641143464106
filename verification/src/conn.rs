//! Per-connection state machine: TLS handshake, request assembly,
//! sharded fan-out, response fan-in, framed write, keep-alive or
//! close.
//!
//! The machine owns no socket. The surrounding worker feeds it events
//! (plaintext bytes from TLS, mesh responses, peer shutdown) and
//! performs what it decides: sending the returned mesh messages and
//! writing out the bytes accumulated in `out_bytes`. Responses are
//! appended to `out_bytes` whole, one request's response before the
//! next request is even parsed, so response bytes reach the peer in
//! order and never interleave.

use vstd::prelude::*;
use crate::types::{ChannelRequest, ChannelResponse, ConnectionId, ConsumerId, InfoHash, PeerAddr,
    Request, ResponseEnvelope, ScrapeStatistics, StatsMap};
use crate::scrape::{sorted_stats, spec_sorted_entries, PendingScrape};
use crate::shard::{plan_dispatch, spec_announce_plan_ok, spec_scrape_plan_ok};
use crate::http::{http_response_bytes, scrape_body, spec_http_response, spec_scrape_body};

verus! {

/// Lifecycle of a connection. Writing is not a state of its own: it
/// is the worker draining `out_bytes`, which any state may have
/// filled. A connection whose `close_after_writing` flag is set is
/// closed by the worker once `out_bytes` is drained.
#[derive(Clone, Copy, Debug, PartialEq, Eq, Structural)]
pub enum ConnState {
    /// Accepted; the TLS session has not produced plaintext yet.
    TlsHandshaking,
    /// Assembling the next request from decrypted bytes.
    Reading,
    /// A request was dispatched; awaiting its response(s) on the mesh.
    AwaitingResponse,
    /// Dead: the worker drops the table entry and the socket.
    Closed,
}

/// What became of a mesh response handed to the connection.
#[derive(Clone, Copy, Debug, PartialEq, Eq, Structural)]
pub enum ResponseOutcome {
    /// The response was queued for the peer; the request cycle is
    /// complete.
    Completed,
    /// A scrape share was merged; more shards are outstanding.
    PendingMore,
    /// The envelope's peer address is not this connection's: a fatal
    /// connection error (a routing bug or a stale id), never a
    /// response to the wrong peer.
    PeerAddrMismatch,
    /// No matching outstanding request: a fatal connection error.
    Unexpected,
    /// The framed response would not fit in the address space: fatal.
    BodyTooLarge,
}

/// What polling the request buffer produced.
#[derive(Clone, Copy, Debug, PartialEq, Eq, Structural)]
pub enum ReadOutcome {
    /// Not in the reading state, or marked to close: nothing is read.
    NotReading,
    /// No complete request in the buffer yet.
    NeedMoreData,
    /// A request was assembled and fanned out (a scrape addressing no
    /// shard is answered on the spot instead).
    Dispatched,
    /// The buffered head is no request: a failure response was queued
    /// and the connection is marked to close.
    Rejected,
}

/// Bytes of `"Invalid request"`, the failure reason sent for a head
/// that parses to nothing.
pub open spec fn spec_invalid_reason() -> Seq<u8> {
    seq![
        0x49u8, 0x6e, 0x76, 0x61, 0x6c, 0x69, 0x64, 0x20, 0x72, 0x65, 0x71, 0x75, 0x65, 0x73,
        0x74,
    ]
}

fn invalid_reason() -> (r: Vec<u8>)
    ensures
        r@ == spec_invalid_reason(),
{
    let data: [u8; 15] = [
        0x49u8, 0x6e, 0x76, 0x61, 0x6c, 0x69, 0x64, 0x20, 0x72, 0x65, 0x71, 0x75, 0x65, 0x73,
        0x74,
    ];
    let mut r: Vec<u8> = Vec::new();
    let mut j: usize = 0;
    while j < 15
        invariant
            j <= 15,
            data@ == spec_invalid_reason(),
            r@ == spec_invalid_reason().take(j as int),
        decreases 15 - j,
    {
        r.push(data[j]);
        proof {
            assert(spec_invalid_reason().take(j as int + 1) =~= spec_invalid_reason().take(
                j as int,
            ).push(spec_invalid_reason()[j as int]));
        }
        j += 1;
    }
    proof {
        assert(spec_invalid_reason().take(15) =~= spec_invalid_reason());
    }
    r
}

/// What handling request `req` in the reading state leaves behind: an
/// announce or a shard-addressing scrape is fanned out and awaited; a
/// scrape addressing no shard is answered at once with an empty files
/// dictionary. (The request buffer is not spoken of here: its callers
/// say what happens to it.)
pub open spec fn spec_handled(
    pre: Connection,
    post: Connection,
    req: Request,
    msgs: Seq<(usize, ChannelRequest)>,
) -> bool {
    match req {
        Request::Announce(a) => {
            &&& spec_announce_plan_ok(a, pre.spec_envelope(), pre.request_workers as int, msgs)
            &&& post.state is AwaitingResponse
            &&& post.pending_scrape is None
            &&& post.out_bytes == pre.out_bytes
            &&& post.close_after_writing == pre.close_after_writing
        },
        Request::Scrape(sc) => {
            &&& spec_scrape_plan_ok(
                sc.info_hashes@,
                pre.spec_envelope(),
                pre.request_workers as int,
                msgs,
            )
            &&& (msgs.len() > 0 ==> {
                &&& post.state is AwaitingResponse
                &&& post.pending_scrape matches Some(p) && p.pending_worker_responses == msgs.len()
                    && p.stats.entries@.len() == 0
                &&& post.out_bytes == pre.out_bytes
                &&& post.close_after_writing == pre.close_after_writing
            })
            &&& (msgs.len() == 0 ==> {
                &&& post.state is Reading
                &&& post.pending_scrape is None
                &&& post.out_bytes@ == pre.out_bytes@ + spec_http_response(
                    spec_scrape_body(Seq::empty()),
                )
                &&& post.close_after_writing == (pre.close_after_writing || !pre.keep_alive)
            })
        },
    }
}

/// Per-peer record, as far as the socket worker's decisions go.
pub struct Connection {
    pub state: ConnState,
    pub connection_id: ConnectionId,
    pub consumer_id: ConsumerId,
    pub peer_addr: PeerAddr,
    /// From config: if false, close after one request/response.
    pub keep_alive: bool,
    /// R, the shard modulus.
    pub request_workers: usize,
    /// Decrypted bytes not yet consumed by the request parser.
    pub request_buffer: Vec<u8>,
    /// Bytes queued for the peer, in response order; the worker hands
    /// them to TLS and the socket.
    pub out_bytes: Vec<u8>,
    /// Monotonic: once set it is never cleared. No request is read or
    /// dispatched past it; only in-flight responses are still written.
    pub close_after_writing: bool,
    /// Present iff a scrape is awaiting shard responses not yet
    /// merged.
    pub pending_scrape: Option<PendingScrape>,
}

impl Connection {
    pub open spec fn wf(self) -> bool {
        &&& self.request_workers > 0
        &&& (self.pending_scrape is Some ==> self.state is AwaitingResponse)
        &&& (self.pending_scrape matches Some(p) ==> p.pending_worker_responses > 0)
    }

    /// The routing envelope this connection stamps on its requests.
    pub open spec fn spec_envelope(self) -> ResponseEnvelope {
        ResponseEnvelope {
            consumer_id: self.consumer_id,
            connection_id: self.connection_id,
            peer_addr: self.peer_addr,
        }
    }

    /// The fields that identify the connection and its configuration,
    /// which no event changes.
    pub open spec fn same_identity(pre: Connection, post: Connection) -> bool {
        &&& post.connection_id == pre.connection_id
        &&& post.consumer_id == pre.consumer_id
        &&& post.peer_addr == pre.peer_addr
        &&& post.keep_alive == pre.keep_alive
        &&& post.request_workers == pre.request_workers
    }

    pub fn new(
        connection_id: ConnectionId,
        consumer_id: ConsumerId,
        peer_addr: PeerAddr,
        keep_alive: bool,
        request_workers: usize,
    ) -> (c: Connection)
        requires
            request_workers > 0,
        ensures
            c.wf(),
            c.state is TlsHandshaking,
            c.connection_id == connection_id,
            c.consumer_id == consumer_id,
            c.peer_addr == peer_addr,
            c.keep_alive == keep_alive,
            c.request_workers == request_workers,
            c.request_buffer@ == Seq::<u8>::empty(),
            c.out_bytes@ == Seq::<u8>::empty(),
            !c.close_after_writing,
            c.pending_scrape is None,
    {
        Connection {
            state: ConnState::TlsHandshaking,
            connection_id,
            consumer_id,
            peer_addr,
            keep_alive,
            request_workers,
            request_buffer: Vec::new(),
            out_bytes: Vec::new(),
            close_after_writing: false,
            pending_scrape: None,
        }
    }

    /// The TLS session finished its handshake: plaintext may follow.
    pub fn on_handshake_complete(&mut self)
        requires
            old(self).wf(),
        ensures
            final(self).wf(),
            Self::same_identity(*old(self), *final(self)),
            old(self).state is TlsHandshaking ==> final(self).state is Reading,
            !(old(self).state is TlsHandshaking) ==> *final(self) == *old(self),
            final(self).out_bytes == old(self).out_bytes,
            final(self).request_buffer == old(self).request_buffer,
            final(self).pending_scrape == old(self).pending_scrape,
            final(self).close_after_writing == old(self).close_after_writing,
    {
        if let ConnState::TlsHandshaking = self.state {
            self.state = ConnState::Reading;
        }
    }

    /// The TLS handshake failed: the connection is dropped, silently —
    /// nothing is queued for the peer.
    pub fn on_tls_handshake_failed(&mut self)
        requires
            old(self).wf(),
        ensures
            final(self).wf(),
            Self::same_identity(*old(self), *final(self)),
            final(self).state is Closed,
            final(self).out_bytes == old(self).out_bytes,
            final(self).pending_scrape is None,
            old(self).close_after_writing ==> final(self).close_after_writing,
    {
        self.pending_scrape = None;
        self.state = ConnState::Closed;
    }

    /// The peer shut its write side (a 0-byte read). During the
    /// handshake the connection is dropped silently; afterwards the
    /// close-after-writing flag is set so pending writes still flush,
    /// and no error is propagated.
    pub fn on_peer_closed(&mut self)
        requires
            old(self).wf(),
        ensures
            final(self).wf(),
            Self::same_identity(*old(self), *final(self)),
            final(self).out_bytes == old(self).out_bytes,
            final(self).request_buffer == old(self).request_buffer,
            old(self).state is TlsHandshaking ==> final(self).state is Closed
                && final(self).pending_scrape is None,
            !(old(self).state is TlsHandshaking) ==> final(self).state == old(self).state
                && final(self).close_after_writing && final(self).pending_scrape == old(self).pending_scrape,
            old(self).close_after_writing ==> final(self).close_after_writing,
    {
        if let ConnState::TlsHandshaking = self.state {
            self.pending_scrape = None;
            self.state = ConnState::Closed;
        } else {
            self.close_after_writing = true;
        }
    }

    /// Fan a parsed request out to the request workers: the returned
    /// messages, each to its worker's channel. An announce goes to
    /// the one shard of its info-hash and awaits one response; a
    /// scrape is grouped by shard, one message per addressed shard,
    /// and a pending-scrape slot records how many responses to merge.
    /// A scrape that addresses no shard at all is answered at once
    /// with an empty files dictionary and nothing reaches the mesh.
    ///
    /// Reading past `close_after_writing`, or in any state but
    /// `Reading`, is refused: nothing changes and nothing is sent.
    pub fn handle_request(&mut self, request: Request) -> (msgs: Vec<(usize, ChannelRequest)>)
        requires
            old(self).wf(),
        ensures
            final(self).wf(),
            Self::same_identity(*old(self), *final(self)),
            old(self).close_after_writing ==> final(self).close_after_writing,
            final(self).request_buffer == old(self).request_buffer,
            !(old(self).state is Reading) || old(self).close_after_writing ==> *final(self)
                == *old(self) && msgs@.len() == 0,
            old(self).state is Reading && !old(self).close_after_writing ==> spec_handled(
                *old(self),
                *final(self),
                request,
                msgs@,
            ) && final(self).request_buffer == old(self).request_buffer,
    {
        let mut msgs: Vec<(usize, ChannelRequest)> = Vec::new();
        if self.close_after_writing {
            return msgs;
        }
        match self.state {
            ConnState::Reading => {},
            _ => { return msgs; },
        }
        let envelope = ResponseEnvelope {
            consumer_id: self.consumer_id,
            connection_id: self.connection_id,
            peer_addr: self.peer_addr,
        };
        let plan = plan_dispatch(request, envelope, self.request_workers);
        let crate::shard::Dispatch { messages, pending_scrape_shards } = plan;
        msgs = messages;
        match pending_scrape_shards {
            None => {
                self.pending_scrape = None;
                self.state = ConnState::AwaitingResponse;
            },
            Some(count) => {
                if count == 0 {
                    let empty = crate::types::StatsMap::new();
                    let body = scrape_body(&empty);
                    let frame = http_response_bytes(&body);
                    let mut frame = frame;
                    self.out_bytes.append(&mut frame);
                    self.pending_scrape = None;
                    self.state = ConnState::Reading;
                    if !self.keep_alive {
                        self.close_after_writing = true;
                    }
                } else {
                    self.pending_scrape = Some(PendingScrape::new(count));
                    self.state = ConnState::AwaitingResponse;
                }
            },
        }
        msgs
    }

    /// Feed decrypted bytes into the request buffer. Once the
    /// close-after-writing flag is set, or outside the reading state,
    /// incoming bytes are ignored: nothing more is read from the peer.
    pub fn on_plaintext(&mut self, data: &Vec<u8>)
        requires
            old(self).wf(),
        ensures
            final(self).wf(),
            Self::same_identity(*old(self), *final(self)),
            final(self).out_bytes == old(self).out_bytes,
            final(self).state == old(self).state,
            final(self).pending_scrape == old(self).pending_scrape,
            final(self).close_after_writing == old(self).close_after_writing,
            old(self).state is Reading && !old(self).close_after_writing ==> final(self).request_buffer@ == old(self).request_buffer@ + data@,
            !(old(self).state is Reading) || old(self).close_after_writing ==> final(self).request_buffer == old(self).request_buffer,
    {
        if self.close_after_writing {
            return ;
        }
        match self.state {
            ConnState::Reading => {
                crate::http::push_bytes(&mut self.request_buffer, data);
            },
            _ => {},
        }
    }

    /// Try to assemble the next request from the buffer and fan it
    /// out. One request is taken per call; what follows it stays
    /// buffered, so pipelined requests are answered one by one, in
    /// order. A head that no request encodes to is answered with a
    /// failure response and the connection is marked to close.
    pub fn poll_request(&mut self) -> (r: (ReadOutcome, Vec<(usize, ChannelRequest)>))
        requires
            old(self).wf(),
        ensures
            final(self).wf(),
            Self::same_identity(*old(self), *final(self)),
            old(self).close_after_writing ==> final(self).close_after_writing,
            match r.0 {
                ReadOutcome::NotReading => {
                    &&& (!(old(self).state is Reading) || old(self).close_after_writing)
                    &&& *final(self) == *old(self)
                    &&& r.1@.len() == 0
                },
                ReadOutcome::NeedMoreData => {
                    &&& old(self).state is Reading && !old(self).close_after_writing
                    &&& (forall|i: int|
                        !crate::codec::spec_has_terminator_at(old(self).request_buffer@, i))
                    &&& *final(self) == *old(self)
                    &&& r.1@.len() == 0
                },
                ReadOutcome::Rejected => {
                    &&& old(self).state is Reading && !old(self).close_after_writing
                    &&& (exists|i: int| {
                        &&& #[trigger] crate::codec::spec_has_terminator_at(
                            old(self).request_buffer@,
                            i,
                        )
                        &&& (forall|j: int|
                            0 <= j < i ==> !crate::codec::spec_has_terminator_at(
                                old(self).request_buffer@,
                                j,
                            ))
                        &&& (forall|req: Request|
                            !crate::codec::spec_head_parses_to(
                                old(self).request_buffer@.take(i),
                                req,
                            ))
                    })
                    &&& final(self).out_bytes@ == old(self).out_bytes@ + spec_http_response(
                        crate::http::spec_failure_body(spec_invalid_reason()),
                    )
                    &&& final(self).close_after_writing
                    &&& final(self).state is Reading
                    &&& final(self).pending_scrape is None
                    &&& final(self).request_buffer == old(self).request_buffer
                    &&& r.1@.len() == 0
                },
                ReadOutcome::Dispatched => {
                    &&& old(self).state is Reading && !old(self).close_after_writing
                    &&& (exists|req: Request, i: int| {
                        &&& 0 <= i
                        &&& i + 4 <= old(self).request_buffer@.len()
                        &&& crate::codec::spec_has_terminator_at(old(self).request_buffer@, i)
                        &&& (forall|j: int|
                            0 <= j < i ==> !crate::codec::spec_has_terminator_at(
                                old(self).request_buffer@,
                                j,
                            ))
                        &&& #[trigger] crate::codec::spec_head_parses_to(
                            old(self).request_buffer@.take(i),
                            req,
                        )
                        &&& spec_handled(*old(self), *final(self), req, r.1@)
                        &&& final(self).request_buffer@ == old(self).request_buffer@.skip(i + 4)
                    })
                },
            },
    {
        let mut msgs: Vec<(usize, ChannelRequest)> = Vec::new();
        if self.close_after_writing {
            return (ReadOutcome::NotReading, msgs);
        }
        match self.state {
            ConnState::Reading => {},
            _ => {
                return (ReadOutcome::NotReading, msgs);
            },
        }
        match crate::codec::parse_request(&self.request_buffer) {
            crate::codec::ParseOutcome::NeedMoreData => (ReadOutcome::NeedMoreData, msgs),
            crate::codec::ParseOutcome::Invalid => {
                let reason = invalid_reason();
                let body = crate::http::failure_body(&reason);
                proof {
                    reveal_with_fuel(crate::http::spec_decimal, 3);
                    assert(body@.len() < 100);
                }
                self.queue_frame(&body);
                self.close_after_writing = true;
                (ReadOutcome::Rejected, msgs)
            },
            crate::codec::ParseOutcome::Parsed { request, consumed } => {
                let rest = self.request_buffer.split_off(consumed);
                self.request_buffer = rest;
                let ms = self.handle_request(request);
                (ReadOutcome::Dispatched, ms)
            },
        }
    }

    /// What completing a request cycle with response body `body`
    /// leaves behind: the framed response appended whole to the write
    /// queue (responses thus reach the peer in request order, never
    /// interleaved), the slot cleared, and the connection back to
    /// reading — or marked to close, if keep-alive is off.
    pub open spec fn spec_completed(pre: Connection, post: Connection, body: Seq<u8>) -> bool {
        &&& post.out_bytes@ == pre.out_bytes@ + spec_http_response(body)
        &&& post.state is Reading
        &&& post.pending_scrape is None
        &&& post.close_after_writing == (pre.close_after_writing || !pre.keep_alive)
        &&& post.request_buffer == pre.request_buffer
    }

    /// Take one mesh response. At most one response is ever queued per
    /// request: a response in any state but `AwaitingResponse` queues
    /// nothing and closes the connection, and completing a cycle
    /// leaves `AwaitingResponse`, so a duplicate finds the connection
    /// no longer awaiting. A response whose envelope names another
    /// peer's address queues nothing either.
    pub fn on_channel_response(&mut self, response: ChannelResponse) -> (r: ResponseOutcome)
        requires
            old(self).wf(),
        ensures
            final(self).wf(),
            Self::same_identity(*old(self), *final(self)),
            old(self).close_after_writing ==> final(self).close_after_writing,
            match r {
                ResponseOutcome::PeerAddrMismatch => {
                    &&& response.spec_envelope().peer_addr != old(self).peer_addr
                    &&& final(self).state is Closed
                    &&& final(self).out_bytes == old(self).out_bytes
                    &&& final(self).pending_scrape is None
                },
                ResponseOutcome::Unexpected => {
                    &&& response.spec_envelope().peer_addr == old(self).peer_addr
                    &&& (!(old(self).state is AwaitingResponse) || (response matches
                        ChannelResponse::Announce { .. } && old(self).pending_scrape is Some) || (
                    response matches ChannelResponse::Scrape { .. } && old(self).pending_scrape
                        is None))
                    &&& final(self).state is Closed
                    &&& final(self).out_bytes == old(self).out_bytes
                    &&& final(self).pending_scrape is None
                },
                ResponseOutcome::Completed => {
                    &&& response.spec_envelope().peer_addr == old(self).peer_addr
                    &&& old(self).state is AwaitingResponse
                    &&& match response {
                        ChannelResponse::Announce { body, .. } => {
                            &&& old(self).pending_scrape is None
                            &&& Self::spec_completed(*old(self), *final(self), body@)
                        },
                        ChannelResponse::Scrape { files, .. } => {
                            &&& (old(self).pending_scrape matches Some(p) && (
                            p.pending_worker_responses == 1 && (exists|
                                entries: Seq<(InfoHash, ScrapeStatistics)>,
                            | {
                                &&& #[trigger] spec_sorted_entries(entries)
                                &&& StatsMap::map_of(entries) == StatsMap::map_of(
                                    p.stats.entries@ + files.entries@,
                                )
                                &&& Self::spec_completed(
                                    *old(self),
                                    *final(self),
                                    spec_scrape_body(entries),
                                )
                            })))
                        },
                    }
                },
                ResponseOutcome::PendingMore => {
                    &&& response.spec_envelope().peer_addr == old(self).peer_addr
                    &&& old(self).state is AwaitingResponse
                    &&& final(self).state is AwaitingResponse
                    &&& final(self).out_bytes == old(self).out_bytes
                    &&& (response matches ChannelResponse::Scrape { files, .. } && (old(self).pending_scrape matches Some(p) && (final(self).pending_scrape matches Some(q)
                        && p.pending_worker_responses > 1
                        && q.pending_worker_responses == p.pending_worker_responses - 1
                        && q.stats.entries@ == p.stats.entries@ + files.entries@)))
                },
                ResponseOutcome::BodyTooLarge => {
                    &&& response.spec_envelope().peer_addr == old(self).peer_addr
                    &&& old(self).state is AwaitingResponse
                    &&& final(self).state is Closed
                    &&& final(self).out_bytes == old(self).out_bytes
                    &&& final(self).pending_scrape is None
                    &&& match response {
                        ChannelResponse::Announce { body, .. } => {
                            &&& old(self).pending_scrape is None
                            &&& body@.len() + 2 > usize::MAX
                        },
                        ChannelResponse::Scrape { files, .. } => {
                            &&& (old(self).pending_scrape matches Some(p) && (
                            p.pending_worker_responses == 1 && (exists|
                                entries: Seq<(InfoHash, ScrapeStatistics)>,
                            | {
                                &&& #[trigger] spec_sorted_entries(entries)
                                &&& StatsMap::map_of(entries) == StatsMap::map_of(
                                    p.stats.entries@ + files.entries@,
                                )
                                &&& spec_scrape_body(entries).len() + 2 > usize::MAX
                            })))
                        },
                    }
                },
            },
    {
        let envelope = response.envelope();
        if !peer_addr_eq(&envelope.peer_addr, &self.peer_addr) {
            self.pending_scrape = None;
            self.state = ConnState::Closed;
            return ResponseOutcome::PeerAddrMismatch;
        }
        match self.state {
            ConnState::AwaitingResponse => {},
            _ => {
                self.pending_scrape = None;
                self.state = ConnState::Closed;
                return ResponseOutcome::Unexpected;
            },
        }
        match response {
            ChannelResponse::Announce { body, .. } => {
                match &self.pending_scrape {
                    Some(_) => {
                        self.pending_scrape = None;
                        self.state = ConnState::Closed;
                        ResponseOutcome::Unexpected
                    },
                    None => {
                        if body.len() > usize::MAX - 2 {
                            self.state = ConnState::Closed;
                            return ResponseOutcome::BodyTooLarge;
                        }
                        self.queue_frame(&body);
                        ResponseOutcome::Completed
                    },
                }
            },
            ChannelResponse::Scrape { files, .. } => {
                let mut done_body: Option<Vec<u8>> = None;
                let ghost mut done_entries: Seq<(InfoHash, ScrapeStatistics)> = Seq::empty();
                match &mut self.pending_scrape {
                    None => {
                        self.state = ConnState::Closed;
                        return ResponseOutcome::Unexpected;
                    },
                    Some(p) => {
                        let done = p.merge_shard_response(&files);
                        if done {
                            // the wire format wants the files as an
                            // ordered map: sorted by key, the response
                            // bytes are the same whatever order the
                            // shard responses arrived in
                            let sorted = sorted_stats(&p.stats);
                            proof {
                                done_entries = sorted.entries@;
                            }
                            done_body = Some(scrape_body(&sorted));
                        }
                    },
                }
                match done_body {
                    None => ResponseOutcome::PendingMore,
                    Some(body) => {
                        self.pending_scrape = None;
                        if body.len() > usize::MAX - 2 {
                            self.state = ConnState::Closed;
                            proof {
                                assert(spec_sorted_entries(done_entries));
                            }
                            return ResponseOutcome::BodyTooLarge;
                        }
                        self.queue_frame(&body);
                        proof {
                            assert(spec_sorted_entries(done_entries));
                        }
                        ResponseOutcome::Completed
                    },
                }
            },
        }
    }

    /// Frame a body and append it, whole, to the write queue; then
    /// decide keep-alive: without it, the connection closes once the
    /// response is written.
    fn queue_frame(&mut self, body: &Vec<u8>)
        requires
            old(self).wf(),
            body@.len() + 2 <= usize::MAX,
            old(self).pending_scrape is None,
        ensures
            final(self).wf(),
            Self::same_identity(*old(self), *final(self)),
            final(self).out_bytes@ == old(self).out_bytes@ + spec_http_response(body@),
            final(self).state is Reading,
            final(self).pending_scrape is None,
            final(self).close_after_writing == (old(self).close_after_writing || !old(self).keep_alive),
            final(self).request_buffer == old(self).request_buffer,
    {
        let mut frame = http_response_bytes(body);
        self.out_bytes.append(&mut frame);
        self.state = ConnState::Reading;
        if !self.keep_alive {
            self.close_after_writing = true;
        }
    }
}

/// Comparison of peer addresses, as the response–peer consistency
/// check uses it.
pub fn peer_addr_eq(a: &PeerAddr, b: &PeerAddr) -> (r: bool)
    ensures
        r == (a == b),
{
    *a == *b
}

} // verus!
