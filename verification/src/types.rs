//! Plain data carried between peers, socket workers and request workers.

use vstd::prelude::*;

verus! {

/// A swarm's 20-byte content identifier. Only byte 0 is consulted for
/// sharding; the rest is carried opaquely.
#[derive(Clone, Copy, Debug)]
pub struct InfoHash {
    pub bytes: [u8; 20],
}

impl InfoHash {
    pub open spec fn view(self) -> Seq<u8> {
        self.bytes@
    }

    /// Byte 0, the only byte the shard function reads.
    pub open spec fn spec_byte0(self) -> u8 {
        self.bytes@[0]
    }

    pub fn byte0(&self) -> (b: u8)
        ensures
            b == self.spec_byte0(),
    {
        self.bytes[0]
    }

}

/// A peer's IP address, with the v4-mapped v6 form (`::ffff:a.b.c.d`)
/// representable on the v6 side.
#[derive(Clone, Copy, Debug, PartialEq, Eq, Structural)]
pub enum PeerIp {
    V4(u32),
    V6(u128),
}

/// Remote address of a peer, as the socket layer reports it.
#[derive(Clone, Copy, Debug, PartialEq, Eq, Structural)]
pub struct PeerAddr {
    pub ip: PeerIp,
    pub port: u16,
}

/// Dense, reusable key of a connection in its socket worker's table,
/// stable for the connection's lifetime.
#[derive(Clone, Copy, Debug, PartialEq, Eq, Structural)]
pub struct ConnectionId(pub usize);

/// Stable identifier of a socket worker as a consumer on the response
/// mesh.
#[derive(Clone, Copy, Debug, PartialEq, Eq, Structural)]
pub struct ConsumerId(pub usize);

/// Swarm statistics reported by a scrape.
#[derive(Clone, Copy, Debug, PartialEq, Eq, Structural)]
pub struct ScrapeStatistics {
    pub complete: u64,
    pub incomplete: u64,
}

/// An `Announce` request: the peer joins the swarm of `info_hash` and
/// asks for other peers. Everything past the info-hash is business of
/// the request workers and is carried opaquely.
#[derive(Clone, Copy, Debug)]
pub struct AnnounceRequest {
    pub info_hash: InfoHash,
}

/// A `Scrape` request: statistics over a set of swarms.
#[derive(Clone, Debug)]
pub struct ScrapeRequest {
    pub info_hashes: Vec<InfoHash>,
}

/// A tracker request assembled from a peer's bytes.
#[derive(Clone, Debug)]
pub enum Request {
    Announce(AnnounceRequest),
    Scrape(ScrapeRequest),
}

/// Routing envelope of a mesh message. Request workers copy it
/// verbatim into the response so the socket worker can demultiplex
/// without shared lookup tables.
#[derive(Clone, Copy, Debug, PartialEq, Eq, Structural)]
pub struct ResponseEnvelope {
    pub consumer_id: ConsumerId,
    pub connection_id: ConnectionId,
    pub peer_addr: PeerAddr,
}

/// A request message on the mesh, socket worker to request worker.
#[derive(Clone, Debug)]
pub enum ChannelRequest {
    Announce { envelope: ResponseEnvelope, request: AnnounceRequest },
    Scrape { envelope: ResponseEnvelope, info_hashes: Vec<InfoHash> },
}

/// Scrape statistics keyed by info-hash. Entries are kept in arrival
/// order; the map view is last-write-wins, so merging responses whose
/// hash sets are disjoint (distinct shards) is order-independent.
#[derive(Clone, Debug)]
pub struct StatsMap {
    pub entries: Vec<(InfoHash, ScrapeStatistics)>,
}

impl StatsMap {
    /// The entries as a map, later entries winning.
    pub open spec fn map_of(s: Seq<(InfoHash, ScrapeStatistics)>) -> Map<Seq<u8>, ScrapeStatistics>
        decreases s.len(),
    {
        if s.len() == 0 {
            Map::empty()
        } else {
            Self::map_of(s.drop_last()).insert(s.last().0@, s.last().1)
        }
    }

    pub open spec fn view(self) -> Map<Seq<u8>, ScrapeStatistics> {
        Self::map_of(self.entries@)
    }

    pub fn new() -> (r: StatsMap)
        ensures
            r.entries@ == Seq::<(InfoHash, ScrapeStatistics)>::empty(),
            r@ == Map::<Seq<u8>, ScrapeStatistics>::empty(),
    {
        StatsMap { entries: Vec::new() }
    }

    pub fn len(&self) -> (n: usize)
        ensures
            n == self.entries@.len(),
    {
        self.entries.len()
    }
}

/// A response message on the mesh, request worker back to socket
/// worker. The envelope is the one from the request.
#[derive(Clone, Debug)]
pub enum ChannelResponse {
    /// The announce response, already encoded by the request worker's
    /// external tracker codec.
    Announce { envelope: ResponseEnvelope, body: Vec<u8> },
    /// One shard's share of a scrape.
    Scrape { envelope: ResponseEnvelope, files: StatsMap },
}

impl ChannelResponse {
    pub open spec fn spec_envelope(self) -> ResponseEnvelope {
        match self {
            ChannelResponse::Announce { envelope, .. } => envelope,
            ChannelResponse::Scrape { envelope, .. } => envelope,
        }
    }

    pub fn envelope(&self) -> (e: ResponseEnvelope)
        ensures
            e == self.spec_envelope(),
    {
        match self {
            ChannelResponse::Announce { envelope, .. } => *envelope,
            ChannelResponse::Scrape { envelope, .. } => *envelope,
        }
    }
}

/// The two request kinds a load-generating client alternates
/// between.
#[derive(PartialEq, Eq, Clone, Copy, Debug, Structural)]
pub enum RequestType {
    Announce,
    Scrape,
}

/// If the v6 address is a v4-mapped one (`::ffff:a.b.c.d`), return the
/// embedded v4 address; otherwise return the address unchanged.
pub open spec fn spec_convert_ipv4_mapped_ipv6(ip: PeerIp) -> PeerIp {
    match ip {
        PeerIp::V4(_) => ip,
        PeerIp::V6(x) => if x >> 32 == 0xffff {
            PeerIp::V4((x & 0xffff_ffff) as u32)
        } else {
            ip
        },
    }
}

pub fn convert_ipv4_mapped_ipv6(ip: PeerIp) -> (r: PeerIp)
    ensures
        r == spec_convert_ipv4_mapped_ipv6(ip),
{
    match ip {
        PeerIp::V4(_) => ip,
        PeerIp::V6(x) => {
            if x >> 32 == 0xffff {
                PeerIp::V4((x & 0xffff_ffff) as u32)
            } else {
                ip
            }
        },
    }
}

} // verus!
