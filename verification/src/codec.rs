//! The reference request codec: assembling `Announce` and `Scrape`
//! requests from accumulated plaintext bytes, and the encoder they
//! round-trip against.
//!
//! A request is one line, `GET /announce?info_hash=<40 hex>` or
//! `GET /scrape?info_hash=<40 hex per hash, concatenated>`, followed
//! by ` HTTP/1.1` and an empty line (`\r\n\r\n`). The parser reads
//! the whole accumulated buffer, so its outcome depends only on the
//! bytes received so far, never on how they were chunked: until the
//! terminating empty line arrives it reports `NeedMoreData`, then it
//! either parses the head or rejects it.

use vstd::prelude::*;
use crate::types::{AnnounceRequest, InfoHash, Request, ScrapeRequest};

verus! {

broadcast use vstd::array::group_array_axioms;

/// What feeding the buffer to the parser produced.
pub enum ParseOutcome {
    /// A complete request; `consumed` bytes of the buffer belong to
    /// it, terminator included, and the rest is the next request's.
    Parsed { request: Request, consumed: usize },
    /// No terminating empty line yet: keep reading.
    NeedMoreData,
    /// A complete head that no well-formed request encodes to.
    Invalid,
}

/// ASCII of a lowercase hex digit.
pub open spec fn spec_is_hex_digit(c: u8) -> bool {
    (0x30 <= c <= 0x39) || (0x61 <= c <= 0x66)
}

/// Value of a hex digit (meaningful when `spec_is_hex_digit`).
pub open spec fn spec_hex_val(c: u8) -> int {
    if c <= 0x39 {
        c - 0x30
    } else {
        c - 0x57
    }
}

/// The hex digit of a nibble value.
pub open spec fn spec_hex_digit_of(n: int) -> u8 {
    if n < 10 {
        (0x30 + n) as u8
    } else {
        (0x57 + n) as u8
    }
}

/// Lowercase hex of a byte string, two digits per byte.
pub open spec fn spec_hex_encode(s: Seq<u8>) -> Seq<u8>
    decreases s.len(),
{
    if s.len() == 0 {
        Seq::empty()
    } else {
        seq![spec_hex_digit_of(s[0] as int / 16), spec_hex_digit_of(s[0] as int % 16)]
            + spec_hex_encode(s.skip(1))
    }
}

/// The hex of a scrape's hashes, fixed-width, concatenated.
pub open spec fn spec_encode_hashes(hs: Seq<InfoHash>) -> Seq<u8>
    decreases hs.len(),
{
    if hs.len() == 0 {
        Seq::empty()
    } else {
        spec_encode_hashes(hs.drop_last()) + spec_hex_encode(hs.last()@)
    }
}

/// Bytes of `"GET /announce?info_hash="`.
pub open spec fn spec_prefix_announce() -> Seq<u8> {
    seq![
        0x47u8, 0x45, 0x54, 0x20, 0x2f, 0x61, 0x6e, 0x6e, 0x6f, 0x75, 0x6e, 0x63, 0x65, 0x3f,
        0x69, 0x6e, 0x66, 0x6f, 0x5f, 0x68, 0x61, 0x73, 0x68, 0x3d,
    ]
}

/// Bytes of `"GET /scrape?info_hash="`.
pub open spec fn spec_prefix_scrape() -> Seq<u8> {
    seq![
        0x47u8, 0x45, 0x54, 0x20, 0x2f, 0x73, 0x63, 0x72, 0x61, 0x70, 0x65, 0x3f, 0x69, 0x6e,
        0x66, 0x6f, 0x5f, 0x68, 0x61, 0x73, 0x68, 0x3d,
    ]
}

/// Bytes of `" HTTP/1.1"`.
pub open spec fn spec_suffix_http() -> Seq<u8> {
    seq![0x20u8, 0x48, 0x54, 0x54, 0x50, 0x2f, 0x31, 0x2e, 0x31]
}

/// The empty line ending a request.
pub open spec fn spec_terminator() -> Seq<u8> {
    seq![0x0du8, 0x0a, 0x0d, 0x0a]
}

/// The head (everything before the terminator) an announce encodes to.
pub open spec fn spec_announce_head(h: InfoHash) -> Seq<u8> {
    spec_prefix_announce() + spec_hex_encode(h@) + spec_suffix_http()
}

/// The head a scrape's hash list encodes to.
pub open spec fn spec_scrape_head(hs: Seq<InfoHash>) -> Seq<u8> {
    spec_prefix_scrape() + spec_encode_hashes(hs) + spec_suffix_http()
}

/// The reference encoding of a request.
pub open spec fn spec_encode_request(r: Request) -> Seq<u8> {
    match r {
        Request::Announce(a) => spec_announce_head(a.info_hash) + spec_terminator(),
        Request::Scrape(sc) => spec_scrape_head(sc.info_hashes@) + spec_terminator(),
    }
}

/// `head` is exactly what `r` encodes to (a scrape needs at least one
/// hash to be well-formed).
pub open spec fn spec_head_parses_to(head: Seq<u8>, r: Request) -> bool {
    match r {
        Request::Announce(a) => head == spec_announce_head(a.info_hash),
        Request::Scrape(sc) => sc.info_hashes@.len() >= 1 && head == spec_scrape_head(
            sc.info_hashes@,
        ),
    }
}

/// The request terminator sits at position `i` of the buffer.
pub open spec fn spec_has_terminator_at(b: Seq<u8>, i: int) -> bool {
    &&& 0 <= i
    &&& i + 4 <= b.len()
    &&& b[i] == 0x0d
    &&& b[i + 1] == 0x0a
    &&& b[i + 2] == 0x0d
    &&& b[i + 3] == 0x0a
}

pub open spec fn spec_starts_with(b: Seq<u8>, p: Seq<u8>) -> bool {
    b.len() >= p.len() && b.take(p.len() as int) == p
}

/// The shape every announce head has: 73 bytes, the announce prefix,
/// 40 hex digits, the HTTP suffix.
pub open spec fn spec_announce_shaped(head: Seq<u8>) -> bool {
    &&& head.len() == 73
    &&& spec_starts_with(head, spec_prefix_announce())
    &&& (forall|t: int| 24 <= t < 64 ==> spec_is_hex_digit(#[trigger] head[t]))
    &&& head.skip(64) == spec_suffix_http()
}

/// The shape every scrape head has: the scrape prefix, one or more
/// 40-digit hex groups, the HTTP suffix.
pub open spec fn spec_scrape_shaped(head: Seq<u8>) -> bool {
    &&& head.len() >= 71
    &&& (head.len() - 31) % 40 == 0
    &&& spec_starts_with(head, spec_prefix_scrape())
    &&& (forall|t: int| 22 <= t < head.len() - 9 ==> spec_is_hex_digit(#[trigger] head[t]))
    &&& head.skip(head.len() - 9) == spec_suffix_http()
}

pub open spec fn spec_head_wellformed(head: Seq<u8>) -> bool {
    spec_announce_shaped(head) || spec_scrape_shaped(head)
}

pub proof fn lemma_hex_encode_len(s: Seq<u8>)
    ensures
        spec_hex_encode(s).len() == 2 * s.len(),
    decreases s.len(),
{
    if s.len() > 0 {
        lemma_hex_encode_len(s.skip(1));
    }
}

/// Index formula for the hex encoding.
pub proof fn lemma_hex_encode_index(s: Seq<u8>)
    ensures
        spec_hex_encode(s).len() == 2 * s.len(),
        forall|m: int| 0 <= m < s.len() ==> {
            &&& spec_hex_encode(s)[2 * m] == spec_hex_digit_of(#[trigger] s[m] as int / 16)
            &&& spec_hex_encode(s)[2 * m + 1] == spec_hex_digit_of(s[m] as int % 16)
        },
    decreases s.len(),
{
    lemma_hex_encode_len(s);
    if s.len() > 0 {
        lemma_hex_encode_index(s.skip(1));
        let e = spec_hex_encode(s);
        let rest = spec_hex_encode(s.skip(1));
        assert forall|m: int| 0 <= m < s.len() implies {
            &&& e[2 * m] == spec_hex_digit_of(#[trigger] s[m] as int / 16)
            &&& e[2 * m + 1] == spec_hex_digit_of(s[m] as int % 16)
        } by {
            if m > 0 {
                assert(s.skip(1)[m - 1] == s[m]);
                assert(e[2 * m] == rest[2 * (m - 1)]);
                assert(e[2 * m + 1] == rest[2 * (m - 1) + 1]);
            }
        }
    }
}

/// Every byte of a hex encoding is a hex digit.
pub proof fn lemma_hex_encode_digits(s: Seq<u8>)
    ensures
        spec_hex_encode(s).len() == 2 * s.len(),
        forall|j: int| 0 <= j < 2 * s.len() ==> spec_is_hex_digit(#[trigger] spec_hex_encode(s)[j]),
    decreases s.len(),
{
    lemma_hex_encode_len(s);
    if s.len() > 0 {
        lemma_hex_encode_digits(s.skip(1));
        let e = spec_hex_encode(s);
        let rest = spec_hex_encode(s.skip(1));
        assert forall|j: int| 0 <= j < 2 * s.len() implies spec_is_hex_digit(#[trigger] e[j]) by {
            if j >= 2 {
                assert(e[j] == rest[j - 2]);
            }
        }
    }
}

pub proof fn lemma_encode_hashes_len(hs: Seq<InfoHash>)
    ensures
        spec_encode_hashes(hs).len() == 40 * hs.len(),
    decreases hs.len(),
{
    if hs.len() > 0 {
        lemma_encode_hashes_len(hs.drop_last());
        lemma_hex_encode_len(hs.last()@);
    }
}

/// Every byte of a hash-list encoding is a hex digit.
pub proof fn lemma_encode_hashes_digits(hs: Seq<InfoHash>)
    ensures
        spec_encode_hashes(hs).len() == 40 * hs.len(),
        forall|j: int|
            0 <= j < 40 * hs.len() ==> spec_is_hex_digit(#[trigger] spec_encode_hashes(hs)[j]),
    decreases hs.len(),
{
    lemma_encode_hashes_len(hs);
    if hs.len() > 0 {
        lemma_encode_hashes_digits(hs.drop_last());
        lemma_hex_encode_digits(hs.last()@);
        let e = spec_encode_hashes(hs);
        let front = spec_encode_hashes(hs.drop_last());
        assert forall|j: int| 0 <= j < 40 * hs.len() implies spec_is_hex_digit(
            #[trigger] e[j],
        ) by {
            if j >= front.len() {
                assert(e[j] == spec_hex_encode(hs.last()@)[j - front.len()]);
            }
        }
    }
}

/// An announce encoding has the announce shape.
pub proof fn lemma_announce_encoding_shaped(h: InfoHash)
    ensures
        spec_announce_shaped(spec_announce_head(h)),
{
    let head = spec_announce_head(h);
    lemma_hex_encode_digits(h@);
    assert(head.len() == 73);
    assert(head.take(24) =~= spec_prefix_announce());
    assert forall|t: int| 24 <= t < 64 implies spec_is_hex_digit(#[trigger] head[t]) by {
        assert(head[t] == spec_hex_encode(h@)[t - 24]);
    }
    assert(head.skip(64) =~= spec_suffix_http());
}

/// A scrape encoding has the scrape shape.
pub proof fn lemma_scrape_encoding_shaped(hs: Seq<InfoHash>)
    requires
        hs.len() >= 1,
    ensures
        spec_scrape_shaped(spec_scrape_head(hs)),
{
    let head = spec_scrape_head(hs);
    lemma_encode_hashes_digits(hs);
    assert(head.len() == 31 + 40 * hs.len());
    assert((head.len() - 31) % 40 == 0) by {
        assert(head.len() - 31 == 40 * hs.len());
        assert(40 * hs.len() % 40 == 0) by (nonlinear_arith);
    }
    assert(head.len() >= 71) by {
        assert(40 * hs.len() >= 40) by (nonlinear_arith)
            requires hs.len() >= 1;
    }
    assert(head.take(22) =~= spec_prefix_scrape());
    assert forall|t: int| 22 <= t < head.len() - 9 implies spec_is_hex_digit(
        #[trigger] head[t],
    ) by {
        assert(head[t] == spec_encode_hashes(hs)[t - 22]);
    }
    assert(head.skip(head.len() - 9) =~= spec_suffix_http());
}

/// Whatever parses, is well shaped: so a head that fails the shape
/// checks is the encoding of no request at all.
pub proof fn lemma_parses_to_wellformed(head: Seq<u8>, r: Request)
    requires
        spec_head_parses_to(head, r),
    ensures
        spec_head_wellformed(head),
{
    match r {
        Request::Announce(a) => lemma_announce_encoding_shaped(a.info_hash),
        Request::Scrape(sc) => lemma_scrape_encoding_shaped(sc.info_hashes@),
    }
}

/// Byte `m` of `s` is spelled by digits `2m` and `2m+1` of `d`.
pub open spec fn spec_digit_pair_ok(s: Seq<u8>, d: Seq<u8>, m: int) -> bool {
    &&& spec_is_hex_digit(d[2 * m])
    &&& spec_is_hex_digit(d[2 * m + 1])
    &&& s[m] == 16 * spec_hex_val(d[2 * m]) + spec_hex_val(d[2 * m + 1])
}

/// A digit string that spells the bytes of `s` is the hex encoding of
/// `s`.
pub proof fn lemma_hex_encode_from_digits(s: Seq<u8>, d: Seq<u8>)
    requires
        d.len() == 2 * s.len(),
        forall|m: int| 0 <= m < s.len() ==> #[trigger] spec_digit_pair_ok(s, d, m),
    ensures
        spec_hex_encode(s) == d,
    decreases s.len(),
{
    if s.len() == 0 {
        assert(spec_hex_encode(s) =~= d);
    } else {
        assert forall|m: int| 0 <= m < s.skip(1).len() implies #[trigger] spec_digit_pair_ok(
            s.skip(1),
            d.skip(2),
            m,
        ) by {
            assert(spec_digit_pair_ok(s, d, m + 1));
            assert(d.skip(2)[2 * m] == d[2 * (m + 1)]);
            assert(d.skip(2)[2 * m + 1] == d[2 * (m + 1) + 1]);
            assert(s.skip(1)[m] == s[m + 1]);
        }
        lemma_hex_encode_from_digits(s.skip(1), d.skip(2));
        assert(spec_digit_pair_ok(s, d, 0));
        let hi = spec_hex_val(d[2 * 0int]);
        let lo = spec_hex_val(d[2 * 0int + 1]);
        assert(s[0] == 16 * hi + lo);
        assert(0 <= hi < 16 && 0 <= lo < 16);
        assert(s[0] as int / 16 == hi && s[0] as int % 16 == lo) by (nonlinear_arith)
            requires s[0] == 16 * hi + lo, 0 <= hi < 16, 0 <= lo < 16;
        assert(spec_hex_digit_of(hi) == d[2 * 0int]);
        assert(spec_hex_digit_of(lo) == d[2 * 0int + 1]);
        assert(spec_hex_encode(s) =~= d);
    }
}

/// No byte of a well-formed head is a carriage return, so the first
/// terminator of an encoded request sits exactly at the head's end.
pub proof fn lemma_head_has_no_cr(head: Seq<u8>)
    requires
        spec_head_wellformed(head),
    ensures
        forall|j: int| 0 <= j < head.len() ==> #[trigger] head[j] != 0x0d,
{
    if spec_announce_shaped(head) {
        assert forall|j: int| 0 <= j < head.len() implies #[trigger] head[j] != 0x0d by {
            if j < 24 {
                assert(head[j] == spec_prefix_announce()[j]);
            } else if j < 64 {
                assert(spec_is_hex_digit(head[j]));
            } else {
                assert(head[j] == spec_suffix_http()[j - 64]);
            }
        }
    } else {
        assert forall|j: int| 0 <= j < head.len() implies #[trigger] head[j] != 0x0d by {
            if j < 22 {
                assert(head[j] == spec_prefix_scrape()[j]);
            } else if j < head.len() - 9 {
                assert(spec_is_hex_digit(head[j]));
            } else {
                assert(head[j] == spec_suffix_http()[j - (head.len() - 9)]);
            }
        }
    }
}

/// Hex encoding is injective.
pub proof fn lemma_hex_encode_injective(s1: Seq<u8>, s2: Seq<u8>)
    requires
        s1.len() == s2.len(),
        spec_hex_encode(s1) == spec_hex_encode(s2),
    ensures
        s1 == s2,
{
    lemma_hex_encode_index(s1);
    lemma_hex_encode_index(s2);
    assert forall|m: int| 0 <= m < s1.len() implies s1[m] == s2[m] by {
        let a = s1[m];
        let b = s2[m];
        assert(spec_hex_digit_of(a as int / 16) == spec_hex_digit_of(b as int / 16));
        assert(spec_hex_digit_of(a as int % 16) == spec_hex_digit_of(b as int % 16));
        assert(a as int / 16 == b as int / 16 && a as int % 16 == b as int % 16);
    }
    assert(s1 =~= s2);
}

/// Encoded hash lists of equal bytes name equal hash lists.
pub proof fn lemma_encode_hashes_injective(hs1: Seq<InfoHash>, hs2: Seq<InfoHash>)
    requires
        spec_encode_hashes(hs1) == spec_encode_hashes(hs2),
    ensures
        hs1 == hs2,
    decreases hs1.len(),
{
    lemma_encode_hashes_len(hs1);
    lemma_encode_hashes_len(hs2);
    assert(hs1.len() == hs2.len()) by (nonlinear_arith)
        requires 40 * hs1.len() == 40 * hs2.len();
    if hs1.len() == 0 {
        assert(hs1 =~= hs2);
    } else {
        let e1 = spec_encode_hashes(hs1);
        let f1 = spec_encode_hashes(hs1.drop_last());
        let f2 = spec_encode_hashes(hs2.drop_last());
        let x1 = spec_hex_encode(hs1.last()@);
        let x2 = spec_hex_encode(hs2.last()@);
        lemma_encode_hashes_len(hs1.drop_last());
        lemma_encode_hashes_len(hs2.drop_last());
        lemma_hex_encode_len(hs1.last()@);
        lemma_hex_encode_len(hs2.last()@);
        assert(spec_encode_hashes(hs1) == f1 + x1);
        assert(spec_encode_hashes(hs2) == f2 + x2);
        assert(f1.len() == f2.len());
        assert forall|t: int| 0 <= t < f1.len() implies f1[t] == f2[t] by {
            assert(f1[t] == (f1 + x1)[t]);
            assert(f2[t] == (f2 + x2)[t]);
        }
        assert(f1 =~= f2);
        assert forall|t: int| 0 <= t < x1.len() implies x1[t] == x2[t] by {
            assert(x1[t] == (f1 + x1)[f1.len() + t]);
            assert(x2[t] == (f2 + x2)[f2.len() + t]);
        }
        assert(x1 =~= x2);
        lemma_encode_hashes_injective(hs1.drop_last(), hs2.drop_last());
        lemma_hex_encode_injective(hs1.last()@, hs2.last()@);
        assert(hs1.last().bytes =~= hs2.last().bytes);
        assert(hs1.last() == hs2.last());
        assert forall|t: int| 0 <= t < hs1.len() implies hs1[t] == hs2[t] by {
            if t < hs1.len() - 1 {
                assert(hs1[t] == hs1.drop_last()[t]);
                assert(hs2[t] == hs2.drop_last()[t]);
            } else {
                assert(hs1[t] == hs1.last());
                assert(hs2[t] == hs2.last());
            }
        }
        assert(hs1 =~= hs2);
    }
}

/// A head parses to at most one request: the two prefixes and lengths
/// cannot collide, and the hex spelling of the hashes is injective.
pub proof fn lemma_parse_unique(head: Seq<u8>, r1: Request, r2: Request)
    requires
        spec_head_parses_to(head, r1),
        spec_head_parses_to(head, r2),
    ensures
        match (r1, r2) {
            (Request::Announce(a1), Request::Announce(a2)) => a1.info_hash == a2.info_hash,
            (Request::Scrape(s1), Request::Scrape(s2)) => s1.info_hashes@ == s2.info_hashes@,
            _ => false,
        },
{
    match (r1, r2) {
        (Request::Announce(a1), Request::Announce(a2)) => {
            let x1 = spec_hex_encode(a1.info_hash@);
            let x2 = spec_hex_encode(a2.info_hash@);
            lemma_hex_encode_len(a1.info_hash@);
            lemma_hex_encode_len(a2.info_hash@);
            assert(head == spec_prefix_announce() + x1 + spec_suffix_http());
            assert(head == spec_prefix_announce() + x2 + spec_suffix_http());
            assert forall|t: int| 0 <= t < 40 implies x1[t] == x2[t] by {
                assert(x1[t] == (spec_prefix_announce() + x1 + spec_suffix_http())[24 + t]);
                assert(x2[t] == (spec_prefix_announce() + x2 + spec_suffix_http())[24 + t]);
            }
            assert(x1 =~= x2);
            lemma_hex_encode_injective(a1.info_hash@, a2.info_hash@);
            assert(a1.info_hash.bytes =~= a2.info_hash.bytes);
        },
        (Request::Scrape(s1), Request::Scrape(s2)) => {
            let x1 = spec_encode_hashes(s1.info_hashes@);
            let x2 = spec_encode_hashes(s2.info_hashes@);
            lemma_encode_hashes_len(s1.info_hashes@);
            lemma_encode_hashes_len(s2.info_hashes@);
            assert(head == spec_prefix_scrape() + x1 + spec_suffix_http());
            assert(head == spec_prefix_scrape() + x2 + spec_suffix_http());
            assert(x1.len() == x2.len());
            assert forall|t: int| 0 <= t < x1.len() implies x1[t] == x2[t] by {
                assert(x1[t] == (spec_prefix_scrape() + x1 + spec_suffix_http())[22 + t]);
                assert(x2[t] == (spec_prefix_scrape() + x2 + spec_suffix_http())[22 + t]);
            }
            assert(x1 =~= x2);
            lemma_encode_hashes_injective(s1.info_hashes@, s2.info_hashes@);
        },
        (Request::Announce(a1), Request::Scrape(s2)) => {
            lemma_hex_encode_len(a1.info_hash@);
            lemma_encode_hashes_len(s2.info_hashes@);
            assert(head.len() == 73);
            assert(head.len() == 31 + 40 * s2.info_hashes@.len());
            assert(40 * s2.info_hashes@.len() == 42);
            assert(false) by (nonlinear_arith)
                requires 40 * s2.info_hashes@.len() == 42;
        },
        (Request::Scrape(s1), Request::Announce(a2)) => {
            lemma_hex_encode_len(a2.info_hash@);
            lemma_encode_hashes_len(s1.info_hashes@);
            assert(head.len() == 73);
            assert(head.len() == 31 + 40 * s1.info_hashes@.len());
            assert(40 * s1.info_hashes@.len() == 42);
            assert(false) by (nonlinear_arith)
                requires 40 * s1.info_hashes@.len() == 42;
        },
    }
}

/// A head that fails the shape checks is the encoding of nothing.
proof fn lemma_unparseable(head: Seq<u8>)
    requires
        !spec_head_wellformed(head),
    ensures
        forall|req: Request| !spec_head_parses_to(head, req),
{
    assert forall|req: Request| !spec_head_parses_to(head, req) by {
        if spec_head_parses_to(head, req) {
            lemma_parses_to_wellformed(head, req);
        }
    }
}

/// Round-trip: the reference encoding of a well-formed request — an
/// announce, or a scrape of at least one hash — carries its first
/// terminator exactly at the head's end, and the head parses to the
/// encoded request and (by `lemma_parse_unique`) to no other. The
/// parser reads the accumulated buffer, a function of the received
/// bytes alone, so this holds however the encoding was chunked.
pub proof fn lemma_round_trip(r: Request)
    requires
        r matches Request::Scrape(sc) ==> sc.info_hashes@.len() >= 1,
    ensures
        ({
            let bytes = spec_encode_request(r);
            &&& bytes.len() >= 4
            &&& spec_has_terminator_at(bytes, bytes.len() - 4)
            &&& (forall|j: int| 0 <= j < bytes.len() - 4 ==> !spec_has_terminator_at(bytes, j))
            &&& spec_head_parses_to(bytes.take(bytes.len() - 4), r)
        }),
{
    let bytes = spec_encode_request(r);
    let head = match r {
        Request::Announce(a) => spec_announce_head(a.info_hash),
        Request::Scrape(sc) => spec_scrape_head(sc.info_hashes@),
    };
    assert(bytes == head + spec_terminator());
    assert(bytes.take(bytes.len() - 4) =~= head);
    match r {
        Request::Announce(a) => lemma_announce_encoding_shaped(a.info_hash),
        Request::Scrape(sc) => lemma_scrape_encoding_shaped(sc.info_hashes@),
    }
    lemma_head_has_no_cr(head);
    assert(spec_has_terminator_at(bytes, bytes.len() - 4));
    assert forall|j: int| 0 <= j < bytes.len() - 4 implies !spec_has_terminator_at(
        bytes,
        j,
    ) by {
        assert(bytes[j] == head[j]);
    }
}

/// However a request's encoding is chunked, every strict prefix
/// still lacks the terminator — the parser reports need-more-data on
/// each of them — and only the full encoding parses, to exactly the
/// encoded request (`lemma_round_trip`). With `parse_request`'s
/// outcome fully determined by the buffer, feeding the bytes in any
/// pieces dispatches exactly one request.
pub proof fn lemma_prefix_needs_more(r: Request, n: int)
    requires
        r matches Request::Scrape(sc) ==> sc.info_hashes@.len() >= 1,
        0 <= n < spec_encode_request(r).len(),
    ensures
        forall|j: int| !spec_has_terminator_at(spec_encode_request(r).take(n), j),
{
    let bytes = spec_encode_request(r);
    let head = match r {
        Request::Announce(a) => spec_announce_head(a.info_hash),
        Request::Scrape(sc) => spec_scrape_head(sc.info_hashes@),
    };
    assert(bytes == head + spec_terminator());
    match r {
        Request::Announce(a) => lemma_announce_encoding_shaped(a.info_hash),
        Request::Scrape(sc) => lemma_scrape_encoding_shaped(sc.info_hashes@),
    }
    lemma_head_has_no_cr(head);
    assert forall|j: int| !spec_has_terminator_at(bytes.take(n), j) by {
        if spec_has_terminator_at(bytes.take(n), j) {
            assert(j + 4 <= n);
            assert(j < head.len());
            assert(bytes.take(n)[j] == head[j]);
        }
    }
}

fn is_hex_digit(c: u8) -> (r: bool)
    ensures
        r == spec_is_hex_digit(c),
{
    (0x30 <= c && c <= 0x39) || (0x61 <= c && c <= 0x66)
}

fn hex_val(c: u8) -> (r: u8)
    requires
        spec_is_hex_digit(c),
    ensures
        r as int == spec_hex_val(c),
        r < 16,
{
    if c <= 0x39 {
        c - 0x30
    } else {
        c - 0x57
    }
}

fn hex_digit_of(n: u8) -> (r: u8)
    requires
        n < 16,
    ensures
        r == spec_hex_digit_of(n as int),
{
    if n < 10 {
        0x30 + n
    } else {
        0x57 + n
    }
}

/// Do the first `N` buffer bytes spell out `p`?
fn matches_at<const N: usize>(buf: &Vec<u8>, p: &[u8; N]) -> (r: bool)
    requires
        N <= buf@.len(),
    ensures
        r == (forall|j: int| 0 <= j < N ==> buf@[j] == p@[j]),
{
    let mut j: usize = 0;
    while j < N
        invariant
            j <= N,
            N <= buf@.len(),
            forall|t: int| 0 <= t < j ==> buf@[t] == p@[t],
        decreases N - j,
    {
        if buf[j] != p[j] {
            return false;
        }
        j += 1;
    }
    true
}

/// Are the buffer bytes in `[from, to)` all hex digits?
fn digits_in_range(buf: &Vec<u8>, from: usize, to: usize) -> (r: bool)
    requires
        from <= to,
        to <= buf@.len(),
    ensures
        r == (forall|t: int| from <= t < to ==> spec_is_hex_digit(#[trigger] buf@[t])),
{
    let mut t: usize = from;
    while t < to
        invariant
            from <= t <= to,
            to <= buf@.len(),
            forall|u: int| from <= u < t ==> spec_is_hex_digit(#[trigger] buf@[u]),
        decreases to - t,
    {
        if !is_hex_digit(buf[t]) {
            return false;
        }
        t += 1;
    }
    true
}

/// Do the 9 buffer bytes at `pos` spell `" HTTP/1.1"`?
fn suffix_at(buf: &Vec<u8>, pos: usize) -> (r: bool)
    requires
        pos + 9 <= buf@.len(),
    ensures
        r == (forall|j: int| 0 <= j < 9 ==> buf@[pos + j] == spec_suffix_http()[j]),
{
    let suffix: [u8; 9] = [0x20u8, 0x48, 0x54, 0x54, 0x50, 0x2f, 0x31, 0x2e, 0x31];
    let total = buf.len();
    let mut j: usize = 0;
    while j < 9
        invariant
            j <= 9,
            total == buf@.len(),
            pos + 9 <= buf@.len(),
            suffix@ == spec_suffix_http(),
            forall|t: int| 0 <= t < j ==> buf@[pos + t] == spec_suffix_http()[t],
        decreases 9 - j,
    {
        if buf[pos + j] != suffix[j] {
            return false;
        }
        j += 1;
    }
    true
}

/// Decode 40 hex digits at `base` into an info-hash.
fn decode_hash(buf: &Vec<u8>, base: usize) -> (h: InfoHash)
    requires
        base + 40 <= buf@.len(),
        forall|t: int| base <= t < base + 40 ==> spec_is_hex_digit(#[trigger] buf@[t]),
    ensures
        spec_hex_encode(h@) == buf@.subrange(base as int, base as int + 40),
{
    let total = buf.len();
    let mut v: Vec<u8> = Vec::new();
    let mut m: usize = 0;
    while m < 20
        invariant
            m <= 20,
            total == buf@.len(),
            base + 40 <= buf@.len(),
            forall|t: int| base <= t < base + 40 ==> spec_is_hex_digit(#[trigger] buf@[t]),
            v@.len() == m,
            forall|u: int| #![trigger v@[u]] 0 <= u < m ==> {
                &&& v@[u] == 16 * spec_hex_val(buf@[base + 2 * u]) + spec_hex_val(
                    buf@[base + 2 * u + 1],
                )
            },
        decreases 20 - m,
    {
        let hi = hex_val(buf[base + 2 * m]);
        let lo = hex_val(buf[base + 2 * m + 1]);
        v.push(16 * hi + lo);
        m += 1;
    }
    let h = InfoHash {
        bytes: [
            v[0], v[1], v[2], v[3], v[4], v[5], v[6], v[7], v[8], v[9], v[10], v[11], v[12],
            v[13], v[14], v[15], v[16], v[17], v[18], v[19],
        ],
    };
    proof {
        assert(h@ =~= v@);
        let d = buf@.subrange(base as int, base as int + 40);
        assert forall|u: int| 0 <= u < 20 implies #[trigger] spec_digit_pair_ok(h@, d, u) by {
            assert(d[2 * u] == buf@[base + 2 * u]);
            assert(d[2 * u + 1] == buf@[base + 2 * u + 1]);
        }
        lemma_hex_encode_from_digits(h@, d);
    }
    h
}

/// Parse the accumulated buffer. The outcome is fully determined:
/// `NeedMoreData` exactly when no terminator has arrived, otherwise
/// the bytes before the first terminator either are the encoding of a
/// request or of none at all.
pub fn parse_request(buf: &Vec<u8>) -> (r: ParseOutcome)
    ensures
        match r {
            ParseOutcome::NeedMoreData => forall|i: int| !spec_has_terminator_at(buf@, i),
            ParseOutcome::Parsed { request, consumed } => {
                &&& 4 <= consumed <= buf@.len()
                &&& spec_has_terminator_at(buf@, consumed - 4)
                &&& (forall|j: int| 0 <= j < consumed - 4 ==> !spec_has_terminator_at(buf@, j))
                &&& spec_head_parses_to(buf@.take(consumed - 4), request)
            },
            ParseOutcome::Invalid => exists|i: int| {
                &&& #[trigger] spec_has_terminator_at(buf@, i)
                &&& (forall|j: int| 0 <= j < i ==> !spec_has_terminator_at(buf@, j))
                &&& (forall|req: Request| !spec_head_parses_to(buf@.take(i), req))
            },
        },
{
    let len = buf.len();
    if len < 4 {
        return ParseOutcome::NeedMoreData;
    }
    let mut i: usize = 0;
    let mut found = false;
    while i <= len - 4 && !found
        invariant
            len == buf@.len(),
            len >= 4,
            i <= len - 3,
            !found ==> forall|j: int| 0 <= j < i ==> !spec_has_terminator_at(buf@, j),
            found ==> i <= len - 4 && spec_has_terminator_at(buf@, i as int) && forall|j: int|
                0 <= j < i ==> !spec_has_terminator_at(buf@, j),
        decreases len - i + (if found { 0int } else { 1 }),
    {
        if buf[i] == 0x0d && buf[i + 1] == 0x0a && buf[i + 2] == 0x0d && buf[i + 3] == 0x0a {
            found = true;
        } else {
            i += 1;
        }
    }
    if !found {
        return ParseOutcome::NeedMoreData;
    }
    let head_len = i;
    let ghost head = buf@.take(head_len as int);
    assert(head.len() == head_len);
    assert(forall|j: int| 0 <= j < head_len ==> head[j] == buf@[j]);
    if head_len == 73 {
        proof {
            assert(!spec_scrape_shaped(head));
        }
        let a_prefix: [u8; 24] = [
            0x47u8, 0x45, 0x54, 0x20, 0x2f, 0x61, 0x6e, 0x6e, 0x6f, 0x75, 0x6e, 0x63, 0x65,
            0x3f, 0x69, 0x6e, 0x66, 0x6f, 0x5f, 0x68, 0x61, 0x73, 0x68, 0x3d,
        ];
        proof {
            assert(a_prefix@ =~= spec_prefix_announce());
        }
        if !matches_at::<24>(buf, &a_prefix) {
            proof {
                let j = choose|j: int| 0 <= j < 24 && buf@[j] != a_prefix@[j];
                assert(!spec_announce_shaped(head)) by {
                    if spec_starts_with(head, spec_prefix_announce()) {
                        assert(head.take(24)[j] == spec_prefix_announce()[j]);
                    }
                }
                lemma_unparseable(head);
            }
            return ParseOutcome::Invalid;
        }
        if !digits_in_range(buf, 24, 64) {
            proof {
                let t = choose|t: int| 24 <= t < 64 && !spec_is_hex_digit(#[trigger] buf@[t]);
                assert(!spec_announce_shaped(head)) by {
                    if spec_announce_shaped(head) {
                        assert(spec_is_hex_digit(head[t]));
                    }
                }
                lemma_unparseable(head);
            }
            return ParseOutcome::Invalid;
        }
        if !suffix_at(buf, 64) {
            proof {
                let j = choose|j: int| 0 <= j < 9 && buf@[64 + j] != spec_suffix_http()[j];
                assert(!spec_announce_shaped(head)) by {
                    if spec_announce_shaped(head) {
                        assert(head.skip(64)[j] == spec_suffix_http()[j]);
                    }
                }
                lemma_unparseable(head);
            }
            return ParseOutcome::Invalid;
        }
        let h = decode_hash(buf, 24);
        proof {
            lemma_hex_encode_len(h@);
            assert(head =~= spec_prefix_announce() + spec_hex_encode(h@) + spec_suffix_http());
        }
        return ParseOutcome::Parsed {
            request: Request::Announce(AnnounceRequest { info_hash: h }),
            consumed: head_len + 4,
        };
    }
    proof {
        assert(!spec_announce_shaped(head));
    }
    if head_len < 71 || (head_len - 31) % 40 != 0 {
        proof {
            lemma_unparseable(head);
        }
        return ParseOutcome::Invalid;
    }
    let s_prefix: [u8; 22] = [
        0x47u8, 0x45, 0x54, 0x20, 0x2f, 0x73, 0x63, 0x72, 0x61, 0x70, 0x65, 0x3f, 0x69, 0x6e,
        0x66, 0x6f, 0x5f, 0x68, 0x61, 0x73, 0x68, 0x3d,
    ];
    proof {
        assert(s_prefix@ =~= spec_prefix_scrape());
    }
    if !matches_at::<22>(buf, &s_prefix) {
        proof {
            let j = choose|j: int| 0 <= j < 22 && buf@[j] != s_prefix@[j];
            assert(!spec_scrape_shaped(head)) by {
                if spec_starts_with(head, spec_prefix_scrape()) {
                    assert(head.take(22)[j] == spec_prefix_scrape()[j]);
                }
            }
            lemma_unparseable(head);
        }
        return ParseOutcome::Invalid;
    }
    if !digits_in_range(buf, 22, head_len - 9) {
        proof {
            let t = choose|t: int|
                22 <= t < head_len - 9 && !spec_is_hex_digit(#[trigger] buf@[t]);
            assert(!spec_scrape_shaped(head)) by {
                if spec_scrape_shaped(head) {
                    assert(spec_is_hex_digit(head[t]));
                }
            }
            lemma_unparseable(head);
        }
        return ParseOutcome::Invalid;
    }
    if !suffix_at(buf, head_len - 9) {
        proof {
            let j = choose|j: int|
                0 <= j < 9 && buf@[head_len - 9 + j] != spec_suffix_http()[j];
            assert(!spec_scrape_shaped(head)) by {
                if spec_scrape_shaped(head) {
                    assert(head.skip(head_len - 9)[j] == spec_suffix_http()[j]);
                }
            }
            lemma_unparseable(head);
        }
        return ParseOutcome::Invalid;
    }
    let k = (head_len - 31) / 40;
    proof {
        assert(head_len - 31 == 40 * k + (head_len - 31) % 40);
        assert(40 * k == head_len - 31);
        assert(k >= 1) by (nonlinear_arith)
            requires 40 * k == head_len - 31, head_len >= 71;
    }
    let mut hs: Vec<InfoHash> = Vec::new();
    let mut idx: usize = 0;
    while idx < k
        invariant
            len == buf@.len(),
            head == buf@.take(head_len as int),
            head_len <= len,
            40 * k == head_len - 31,
            head_len >= 71,
            forall|t: int| 22 <= t < head_len - 9 ==> spec_is_hex_digit(#[trigger] buf@[t]),
            idx <= k,
            hs@.len() == idx,
            spec_encode_hashes(hs@) =~= head.subrange(22, 22 + 40 * idx),
        decreases k - idx,
    {
        proof {
            assert(40 * idx + 40 <= 40 * k) by (nonlinear_arith)
                requires idx < k;
        }
        let base = 22 + 40 * idx;
        assert(base + 40 <= head_len - 9);
        let h = decode_hash(buf, base);
        let ghost pre = hs@;
        hs.push(h);
        proof {
            assert(hs@.drop_last() =~= pre);
            assert(hs@.last() == h);
            assert(spec_encode_hashes(hs@) == spec_encode_hashes(pre) + spec_hex_encode(h@));
            assert(buf@.subrange(base as int, base as int + 40) =~= head.subrange(
                base as int,
                base as int + 40,
            ));
            assert(head.subrange(22, 22 + 40 * (idx + 1)) =~= head.subrange(22, base as int)
                + head.subrange(base as int, base as int + 40));
        }
        idx += 1;
    }
    proof {
        assert(22 + 40 * k == head_len - 9);
        assert(spec_encode_hashes(hs@) =~= head.subrange(22, head_len - 9));
        lemma_encode_hashes_len(hs@);
        assert(head =~= spec_prefix_scrape() + spec_encode_hashes(hs@) + spec_suffix_http());
    }
    ParseOutcome::Parsed {
        request: Request::Scrape(ScrapeRequest { info_hashes: hs }),
        consumed: head_len + 4,
    }
}

fn push_arr<const N: usize>(out: &mut Vec<u8>, data: &[u8; N])
    ensures
        final(out)@ == old(out)@ + data@,
{
    let ghost pre = out@;
    let mut j: usize = 0;
    while j < N
        invariant
            j <= N,
            out@ == pre + data@.take(j as int),
        decreases N - j,
    {
        out.push(data[j]);
        proof {
            assert(pre + data@.take(j as int + 1)
                =~= (pre + data@.take(j as int)).push(data@[j as int]));
        }
        j += 1;
    }
    proof {
        assert(data@.take(N as int) =~= data@);
    }
}

fn push_hex(out: &mut Vec<u8>, h: &InfoHash)
    ensures
        final(out)@ == old(out)@ + spec_hex_encode(h@),
{
    let ghost pre = out@;
    let mut m: usize = 0;
    while m < 20
        invariant
            m <= 20,
            out@.len() == pre.len() + 2 * m,
            forall|t: int| 0 <= t < pre.len() ==> out@[t] == pre[t],
            forall|u: int| #![trigger h@[u]] 0 <= u < m ==> {
                &&& out@[pre.len() + 2 * u] == spec_hex_digit_of(h@[u] as int / 16)
                &&& out@[pre.len() + 2 * u + 1] == spec_hex_digit_of(h@[u] as int % 16)
            },
        decreases 20 - m,
    {
        let b = h.bytes[m];
        out.push(hex_digit_of(b / 16));
        out.push(hex_digit_of(b % 16));
        m += 1;
    }
    proof {
        lemma_hex_encode_index(h@);
        let e = spec_hex_encode(h@);
        assert forall|j: int| 0 <= j < 40 implies out@[pre.len() + j] == e[j] by {
            let u = j / 2;
            assert(0 <= u < 20);
            let hi = h@[u] as int / 16;
            let lo = h@[u] as int % 16;
            if j % 2 == 0 {
                assert(j == 2 * u);
                assert(e[2 * u] == spec_hex_digit_of(hi));
                assert(out@[pre.len() + 2 * u] == spec_hex_digit_of(hi));
            } else {
                assert(j == 2 * u + 1);
                assert(e[2 * u + 1] == spec_hex_digit_of(lo));
                assert(out@[pre.len() + 2 * u + 1] == spec_hex_digit_of(lo));
            }
        }
        assert(out@ =~= pre + e);
    }
}

/// The reference encoder: the exact bytes `parse_request` assembles a
/// request back from.
pub fn encode_request(r: &Request) -> (bytes: Vec<u8>)
    ensures
        bytes@ == spec_encode_request(*r),
{
    let a_prefix: [u8; 24] = [
        0x47u8, 0x45, 0x54, 0x20, 0x2f, 0x61, 0x6e, 0x6e, 0x6f, 0x75, 0x6e, 0x63, 0x65, 0x3f,
        0x69, 0x6e, 0x66, 0x6f, 0x5f, 0x68, 0x61, 0x73, 0x68, 0x3d,
    ];
    let s_prefix: [u8; 22] = [
        0x47u8, 0x45, 0x54, 0x20, 0x2f, 0x73, 0x63, 0x72, 0x61, 0x70, 0x65, 0x3f, 0x69, 0x6e,
        0x66, 0x6f, 0x5f, 0x68, 0x61, 0x73, 0x68, 0x3d,
    ];
    let suffix: [u8; 9] = [0x20u8, 0x48, 0x54, 0x54, 0x50, 0x2f, 0x31, 0x2e, 0x31];
    let term: [u8; 4] = [0x0du8, 0x0a, 0x0d, 0x0a];
    proof {
        assert(a_prefix@ =~= spec_prefix_announce());
        assert(s_prefix@ =~= spec_prefix_scrape());
        assert(suffix@ =~= spec_suffix_http());
        assert(term@ =~= spec_terminator());
    }
    let mut out: Vec<u8> = Vec::new();
    match r {
        Request::Announce(a) => {
            push_arr::<24>(&mut out, &a_prefix);
            push_hex(&mut out, &a.info_hash);
            push_arr::<9>(&mut out, &suffix);
            push_arr::<4>(&mut out, &term);
            proof {
                assert(out@ =~= spec_encode_request(*r));
            }
        },
        Request::Scrape(sc) => {
            push_arr::<22>(&mut out, &s_prefix);
            let ghost prefix_part = out@;
            let mut idx: usize = 0;
            while idx < sc.info_hashes.len()
                invariant
                    idx <= sc.info_hashes@.len(),
                    out@ == spec_prefix_scrape() + spec_encode_hashes(
                        sc.info_hashes@.take(idx as int),
                    ),
                decreases sc.info_hashes@.len() - idx,
            {
                let h = sc.info_hashes[idx];
                push_hex(&mut out, &h);
                proof {
                    assert(sc.info_hashes@.take(idx as int + 1).drop_last() =~= sc.info_hashes@.take(
                        idx as int,
                    ));
                    assert(sc.info_hashes@.take(idx as int + 1).last() == sc.info_hashes@[
                        idx as int]);
                }
                idx += 1;
            }
            proof {
                assert(sc.info_hashes@.take(sc.info_hashes@.len() as int) =~= sc.info_hashes@);
            }
            push_arr::<9>(&mut out, &suffix);
            push_arr::<4>(&mut out, &term);
            proof {
                assert(out@ =~= spec_encode_request(*r));
            }
        },
    }
    out
}

} // verus!
