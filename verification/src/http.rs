//! HTTP response framing: the fixed wire format a socket worker sends
//! back to a peer, and the bencoded bodies it frames.

use vstd::prelude::*;
use crate::types::{InfoHash, ScrapeStatistics, StatsMap};

verus! {

/// The decimal digits of `n`, most significant first, no leading
/// zeros (`0` itself is the single digit `0`).
pub open spec fn spec_decimal(n: nat) -> Seq<u8>
    decreases n,
{
    if n < 10 {
        seq![(0x30 + n) as u8]
    } else {
        spec_decimal(n / 10).push((0x30 + n % 10) as u8)
    }
}

/// Relies on itoa::Buffer::format: writes exactly the decimal digits
/// of the integer, most significant first, without leading zeros.
#[verifier::external_body]
fn decimal_bytes(n: u64) -> (r: Vec<u8>)
    ensures
        r@ == spec_decimal(n as nat),
{
    let mut buffer = itoa::Buffer::new();
    buffer.format(n).as_bytes().to_vec()
}

/// Bytes of `"HTTP/1.1 200 OK\r\nContent-Length: "`.
pub open spec fn spec_header_prefix() -> Seq<u8> {
    seq![
        0x48u8, 0x54, 0x54, 0x50, 0x2f, 0x31, 0x2e, 0x31, 0x20, 0x32, 0x30, 0x30, 0x20, 0x4f,
        0x4b, 0x0d, 0x0a, 0x43, 0x6f, 0x6e, 0x74, 0x65, 0x6e, 0x74, 0x2d, 0x4c, 0x65, 0x6e,
        0x67, 0x74, 0x68, 0x3a, 0x20,
    ]
}

/// The full response for a body: status line, `Content-Length` header
/// whose value is the body length plus 2 (the trailing CRLF is part of
/// the counted content), blank line, body, trailing CRLF.
pub open spec fn spec_http_response(body: Seq<u8>) -> Seq<u8> {
    spec_header_prefix() + spec_decimal((body.len() + 2) as nat) + seq![0x0du8, 0x0a, 0x0d, 0x0a]
        + body + seq![0x0du8, 0x0a]
}

fn push_header_prefix(out: &mut Vec<u8>)
    ensures
        final(out)@ == old(out)@ + spec_header_prefix(),
{
    let prefix: [u8; 33] = [
        0x48u8, 0x54, 0x54, 0x50, 0x2f, 0x31, 0x2e, 0x31, 0x20, 0x32, 0x30, 0x30, 0x20, 0x4f,
        0x4b, 0x0d, 0x0a, 0x43, 0x6f, 0x6e, 0x74, 0x65, 0x6e, 0x74, 0x2d, 0x4c, 0x65, 0x6e,
        0x67, 0x74, 0x68, 0x3a, 0x20,
    ];
    let ghost pre = out@;
    let mut i: usize = 0;
    while i < 33
        invariant
            i <= 33,
            prefix@ == spec_header_prefix(),
            out@ == pre + spec_header_prefix().take(i as int),
        decreases 33 - i,
    {
        out.push(prefix[i]);
        proof {
            assert(pre + spec_header_prefix().take(i as int + 1)
                =~= (pre + spec_header_prefix().take(i as int)).push(spec_header_prefix()[i as int]));
        }
        i += 1;
    }
    proof {
        assert(spec_header_prefix().take(33) =~= spec_header_prefix());
    }
}

pub(crate) fn push_bytes(out: &mut Vec<u8>, data: &Vec<u8>)
    ensures
        final(out)@ == old(out)@ + data@,
{
    let ghost pre = out@;
    let mut i: usize = 0;
    while i < data.len()
        invariant
            i <= data@.len(),
            out@ == pre + data@.take(i as int),
        decreases data@.len() - i,
    {
        out.push(data[i]);
        proof {
            assert(pre + data@.take(i as int + 1)
                =~= (pre + data@.take(i as int)).push(data@[i as int]));
        }
        i += 1;
    }
    proof {
        assert(data@.take(data@.len() as int) =~= data@);
    }
}

fn push_decimal(out: &mut Vec<u8>, n: u64)
    ensures
        final(out)@ == old(out)@ + spec_decimal(n as nat),
{
    let digits = decimal_bytes(n);
    push_bytes(out, &digits);
}

/// Frame a response body on the wire. The `Content-Length` sent is
/// exactly `body.len() + 2`.
pub fn http_response_bytes(body: &Vec<u8>) -> (r: Vec<u8>)
    requires
        body@.len() + 2 <= u64::MAX,
    ensures
        r@ == spec_http_response(body@),
{
    let mut r: Vec<u8> = Vec::new();
    push_header_prefix(&mut r);
    let content_len: u64 = body.len() as u64 + 2;
    push_decimal(&mut r, content_len);
    r.push(0x0d);
    r.push(0x0a);
    r.push(0x0d);
    r.push(0x0a);
    push_bytes(&mut r, body);
    r.push(0x0d);
    r.push(0x0a);
    proof {
        assert(r@ =~= spec_http_response(body@));
    }
    r
}

/// Bencoded body of a failure response:
/// `d14:failure reason<len>:<reason>e`.
pub open spec fn spec_failure_body(reason: Seq<u8>) -> Seq<u8> {
    seq![0x64u8, 0x31, 0x34, 0x3a]
        + seq![0x66u8, 0x61, 0x69, 0x6c, 0x75, 0x72, 0x65, 0x20, 0x72, 0x65, 0x61, 0x73, 0x6f, 0x6e]
        + spec_decimal(reason.len() as nat) + seq![0x3au8] + reason + seq![0x65u8]
}

/// Encode a failure reason as a bencoded failure response body.
pub fn failure_body(reason: &Vec<u8>) -> (r: Vec<u8>)
    requires
        reason@.len() <= u64::MAX,
    ensures
        r@ == spec_failure_body(reason@),
{
    let key: [u8; 18] = [
        0x64u8, 0x31, 0x34, 0x3a, 0x66, 0x61, 0x69, 0x6c, 0x75, 0x72, 0x65, 0x20, 0x72, 0x65,
        0x61, 0x73, 0x6f, 0x6e,
    ];
    let mut r: Vec<u8> = Vec::new();
    let mut i: usize = 0;
    let ghost keyseq = seq![0x64u8, 0x31, 0x34, 0x3a]
        + seq![0x66u8, 0x61, 0x69, 0x6c, 0x75, 0x72, 0x65, 0x20, 0x72, 0x65, 0x61, 0x73, 0x6f, 0x6e];
    while i < 18
        invariant
            i <= 18,
            key@ == keyseq,
            r@ == keyseq.take(i as int),
        decreases 18 - i,
    {
        r.push(key[i]);
        proof {
            assert(keyseq.take(i as int + 1) =~= keyseq.take(i as int).push(keyseq[i as int]));
        }
        i += 1;
    }
    proof {
        assert(keyseq.take(18) =~= keyseq);
    }
    push_decimal(&mut r, reason.len() as u64);
    r.push(0x3a);
    push_bytes(&mut r, reason);
    r.push(0x65);
    proof {
        assert(r@ =~= spec_failure_body(reason@));
    }
    r
}

/// Bencoded dictionary entry of one swarm's statistics:
/// `20:<hash>d8:completei<c>e10:incompletei<i>ee`.
pub open spec fn spec_stats_entry(h: Seq<u8>, s: ScrapeStatistics) -> Seq<u8> {
    seq![0x32u8, 0x30, 0x3a] + h
        + seq![0x64u8, 0x38, 0x3a, 0x63, 0x6f, 0x6d, 0x70, 0x6c, 0x65, 0x74, 0x65, 0x69]
        + spec_decimal(s.complete as nat)
        + seq![0x65u8, 0x31, 0x30, 0x3a, 0x69, 0x6e, 0x63, 0x6f, 0x6d, 0x70, 0x6c, 0x65, 0x74, 0x65, 0x69]
        + spec_decimal(s.incomplete as nat) + seq![0x65u8, 0x65]
}

/// Bencoded entry list, in entry order.
pub open spec fn spec_stats_entries(entries: Seq<(InfoHash, ScrapeStatistics)>) -> Seq<u8>
    decreases entries.len(),
{
    if entries.len() == 0 {
        Seq::empty()
    } else {
        spec_stats_entries(entries.drop_last())
            + spec_stats_entry(entries.last().0@, entries.last().1)
    }
}

/// Bencoded body of a scrape response: `d5:filesd<entries>ee`.
pub open spec fn spec_scrape_body(entries: Seq<(InfoHash, ScrapeStatistics)>) -> Seq<u8> {
    seq![0x64u8, 0x35, 0x3a, 0x66, 0x69, 0x6c, 0x65, 0x73, 0x64] + spec_stats_entries(entries)
        + seq![0x65u8, 0x65]
}

fn push_literal<const N: usize>(out: &mut Vec<u8>, data: &[u8; N])
    ensures
        final(out)@ == old(out)@ + data@,
{
    let ghost pre = out@;
    let mut i: usize = 0;
    while i < N
        invariant
            i <= N,
            out@ == pre + data@.take(i as int),
        decreases N - i,
    {
        out.push(data[i]);
        proof {
            assert(pre + data@.take(i as int + 1)
                =~= (pre + data@.take(i as int)).push(data@[i as int]));
        }
        i += 1;
    }
    proof {
        assert(data@.take(N as int) =~= data@);
    }
}

fn push_stats_entry(out: &mut Vec<u8>, h: &InfoHash, s: &ScrapeStatistics)
    ensures
        final(out)@ == old(out)@ + spec_stats_entry(h@, *s),
{
    let ghost pre = out@;
    push_literal(out, &[0x32u8, 0x30, 0x3a]);
    let hash_bytes: Vec<u8> = hash_to_vec(h);
    push_bytes(out, &hash_bytes);
    push_literal(out, &[0x64u8, 0x38, 0x3a, 0x63, 0x6f, 0x6d, 0x70, 0x6c, 0x65, 0x74, 0x65, 0x69]);
    push_decimal(out, s.complete);
    push_literal(
        out,
        &[0x65u8, 0x31, 0x30, 0x3a, 0x69, 0x6e, 0x63, 0x6f, 0x6d, 0x70, 0x6c, 0x65, 0x74, 0x65, 0x69],
    );
    push_decimal(out, s.incomplete);
    push_literal(out, &[0x65u8, 0x65]);
    proof {
        assert(out@ =~= pre + spec_stats_entry(h@, *s));
    }
}

/// The 20 hash bytes as a vector.
fn hash_to_vec(h: &InfoHash) -> (r: Vec<u8>)
    ensures
        r@ == h@,
{
    let mut r: Vec<u8> = Vec::new();
    let mut i: usize = 0;
    while i < 20
        invariant
            i <= 20,
            r@ == h@.take(i as int),
        decreases 20 - i,
    {
        r.push(h.bytes[i]);
        proof {
            assert(h@.take(i as int + 1) =~= h@.take(i as int).push(h@[i as int]));
        }
        i += 1;
    }
    proof {
        assert(h@.take(20) =~= h@);
    }
    r
}

/// Encode merged scrape statistics as a bencoded scrape response body.
pub fn scrape_body(files: &StatsMap) -> (r: Vec<u8>)
    ensures
        r@ == spec_scrape_body(files.entries@),
{
    let mut r: Vec<u8> = Vec::new();
    push_literal(&mut r, &[0x64u8, 0x35, 0x3a, 0x66, 0x69, 0x6c, 0x65, 0x73, 0x64]);
    let mut i: usize = 0;
    while i < files.entries.len()
        invariant
            i <= files.entries@.len(),
            r@ == seq![0x64u8, 0x35, 0x3a, 0x66, 0x69, 0x6c, 0x65, 0x73, 0x64]
                + spec_stats_entries(files.entries@.take(i as int)),
        decreases files.entries@.len() - i,
    {
        let entry = files.entries[i];
        push_stats_entry(&mut r, &entry.0, &entry.1);
        proof {
            assert(files.entries@.take(i as int + 1).drop_last() =~= files.entries@.take(i as int));
            assert(files.entries@.take(i as int + 1).last() == files.entries@[i as int]);
        }
        i += 1;
    }
    r.push(0x65);
    r.push(0x65);
    proof {
        assert(files.entries@.take(files.entries@.len() as int) =~= files.entries@);
        assert(r@ =~= spec_scrape_body(files.entries@));
    }
    r
}

} // verus!
