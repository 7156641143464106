//! The shard function and the dispatch plan: which request worker
//! serves an info-hash, and which mesh messages a request becomes.

use vstd::prelude::*;
use vstd::multiset::Multiset;
use crate::types::{AnnounceRequest, ChannelRequest, InfoHash, Request, ResponseEnvelope};

verus! {

/// Shard index of an info-hash among `request_workers` request
/// workers: byte 0 of the hash, reduced modulo the worker count.
pub open spec fn spec_shard(h: InfoHash, request_workers: int) -> int {
    h.spec_byte0() as int % request_workers
}

/// The request-worker index an info-hash is dispatched to.
pub fn shard(h: &InfoHash, request_workers: usize) -> (s: usize)
    requires
        request_workers > 0,
    ensures
        s == spec_shard(*h, request_workers as int),
        s < request_workers,
{
    (h.byte0() as usize) % request_workers
}

/// The shard function is pure: it reads nothing but byte 0 of the hash
/// and the worker count, so two hashes agreeing on byte 0 land on the
/// same shard, in every call and on every worker.
pub proof fn lemma_shard_pure(h1: InfoHash, h2: InfoHash, request_workers: int)
    requires
        h1.spec_byte0() == h2.spec_byte0(),
    ensures
        spec_shard(h1, request_workers) == spec_shard(h2, request_workers),
{
}

/// The input hashes that belong to shard `sh`, in input order.
pub open spec fn spec_shard_filter(s: Seq<InfoHash>, workers: int, sh: int) -> Seq<InfoHash>
    decreases s.len(),
{
    if s.len() == 0 {
        Seq::empty()
    } else {
        let rest = spec_shard_filter(s.drop_last(), workers, sh);
        if spec_shard(s.last(), workers) == sh {
            rest.push(s.last())
        } else {
            rest
        }
    }
}

/// Whether some input hash belongs to shard `sh`.
pub open spec fn spec_has_shard(s: Seq<InfoHash>, workers: int, sh: int) -> bool {
    exists|i: int| 0 <= i < s.len() && spec_shard(s[i], workers) == sh
}

/// How many of the shards below `up_to` are addressed by some hash:
/// the number of distinct shards of the input, once `up_to` reaches
/// the worker count.
pub open spec fn spec_count_shards(s: Seq<InfoHash>, workers: int, up_to: int) -> nat
    decreases up_to,
{
    if up_to <= 0 {
        0
    } else {
        spec_count_shards(s, workers, up_to - 1)
            + if spec_has_shard(s, workers, up_to - 1) { 1nat } else { 0 }
    }
}

/// A shard's filter is nonempty exactly when some input hash belongs
/// to the shard.
pub proof fn lemma_filter_nonempty(s: Seq<InfoHash>, workers: int, sh: int)
    ensures
        spec_shard_filter(s, workers, sh).len() > 0 <==> spec_has_shard(s, workers, sh),
    decreases s.len(),
{
    if s.len() > 0 {
        lemma_filter_nonempty(s.drop_last(), workers, sh);
        if spec_shard(s.last(), workers) == sh {
            assert(spec_shard(s[s.len() - 1], workers) == sh);
        } else {
            assert(spec_has_shard(s, workers, sh) ==> spec_has_shard(s.drop_last(), workers, sh))
            by {
                if spec_has_shard(s, workers, sh) {
                    let i = choose|i: int|
                        0 <= i < s.len() && spec_shard(s[i], workers) == sh;
                    assert(i < s.len() - 1);
                    assert(spec_shard(s.drop_last()[i], workers) == sh);
                }
            }
        }
    }
}

/// Every hash of shard `sh` lands in that shard's filter, and the
/// filter holds nothing else: together with `group_by_shard`'s
/// postcondition this says the union of the groups' hash lists is
/// exactly the request's hash set, each hash with its own shard.
pub proof fn lemma_filter_membership(s: Seq<InfoHash>, workers: int, sh: int)
    ensures
        forall|i: int|
            0 <= i < s.len() && spec_shard(s[i], workers) == sh
                ==> spec_shard_filter(s, workers, sh).contains(s[i]),
        forall|h: InfoHash| #[trigger] spec_shard_filter(s, workers, sh).contains(h)
            ==> s.contains(h) && spec_shard(h, workers) == sh,
    decreases s.len(),
{
    if s.len() > 0 {
        lemma_filter_membership(s.drop_last(), workers, sh);
        let f = spec_shard_filter(s, workers, sh);
        let fd = spec_shard_filter(s.drop_last(), workers, sh);
        assert forall|i: int| 0 <= i < s.len() && spec_shard(s[i], workers) == sh
            implies f.contains(s[i]) by {
            if i < s.len() - 1 {
                assert(s.drop_last()[i] == s[i]);
                assert(fd.contains(s[i]));
                let j = choose|j: int| 0 <= j < fd.len() && fd[j] == s[i];
                if spec_shard(s.last(), workers) == sh {
                    assert(f[j] == s[i]);
                } else {
                    assert(f[j] == s[i]);
                }
            } else {
                assert(f.last() == s.last());
            }
        }
        assert forall|h: InfoHash| #[trigger] f.contains(h)
            implies s.contains(h) && spec_shard(h, workers) == sh by {
            let j = choose|j: int| 0 <= j < f.len() && f[j] == h;
            if spec_shard(s.last(), workers) == sh && j == f.len() - 1 {
                assert(h == s.last());
                assert(s[s.len() - 1] == h);
            } else {
                assert(fd.contains(h));
                let i = choose|i: int| 0 <= i < s.drop_last().len() && s.drop_last()[i] == h;
                assert(s[i] == h);
            }
        }
    }
}

/// The hashes of all shard filters below `up_to`, taken together.
pub open spec fn spec_filtered_union(s: Seq<InfoHash>, workers: int, up_to: int) -> Multiset<
    InfoHash,
>
    decreases up_to,
{
    if up_to <= 0 {
        Multiset::empty()
    } else {
        spec_filtered_union(s, workers, up_to - 1).add(
            spec_shard_filter(s, workers, up_to - 1).to_multiset(),
        )
    }
}

proof fn lemma_filtered_union_empty(s: Seq<InfoHash>, workers: int, up_to: int)
    requires
        s.len() == 0,
    ensures
        spec_filtered_union(s, workers, up_to) == Multiset::<InfoHash>::empty(),
    decreases up_to,
{
    broadcast use vstd::seq_lib::group_to_multiset_ensures;

    if up_to > 0 {
        lemma_filtered_union_empty(s, workers, up_to - 1);
        let f = spec_shard_filter(s, workers, up_to - 1);
        assert(f.to_multiset() =~= Multiset::<InfoHash>::empty()) by {
            assert(f.to_multiset().len() == 0);
        }
        assert(spec_filtered_union(s, workers, up_to) =~= Multiset::<InfoHash>::empty());
    }
}

proof fn lemma_filtered_union_step(s: Seq<InfoHash>, workers: int, up_to: int)
    requires
        s.len() > 0,
    ensures
        spec_filtered_union(s, workers, up_to) == (if 0 <= spec_shard(s.last(), workers)
            < up_to {
            spec_filtered_union(s.drop_last(), workers, up_to).insert(s.last())
        } else {
            spec_filtered_union(s.drop_last(), workers, up_to)
        }),
    decreases up_to,
{
    broadcast use vstd::seq_lib::group_to_multiset_ensures;

    if up_to > 0 {
        lemma_filtered_union_step(s, workers, up_to - 1);
        let sh = up_to - 1;
        let f = spec_shard_filter(s, workers, sh);
        let f0 = spec_shard_filter(s.drop_last(), workers, sh);
        if spec_shard(s.last(), workers) == sh {
            assert(f == f0.push(s.last()));
            assert(f.to_multiset() =~= f0.to_multiset().insert(s.last()));
            assert(spec_filtered_union(s, workers, up_to) =~= spec_filtered_union(
                s.drop_last(),
                workers,
                up_to,
            ).insert(s.last()));
        } else {
            assert(f == f0);
            if 0 <= spec_shard(s.last(), workers) < up_to - 1 {
                assert(spec_filtered_union(s, workers, up_to) =~= spec_filtered_union(
                    s.drop_last(),
                    workers,
                    up_to,
                ).insert(s.last()));
            } else {
                assert(spec_filtered_union(s, workers, up_to) =~= spec_filtered_union(
                    s.drop_last(),
                    workers,
                    up_to,
                ));
            }
        }
    }
}

/// The union of the shard filters over all shards is exactly the
/// input: every hash lands in the one group of its shard, none is
/// lost and none is invented. Together with `group_by_shard`'s
/// postcondition — group `g` is exactly the filter for its shard, and
/// shards without hashes contribute nothing — this is the statement
/// that the groups partition a scrape's hash list.
pub proof fn lemma_shard_partition(s: Seq<InfoHash>, workers: int)
    requires
        workers >= 1,
    ensures
        spec_filtered_union(s, workers, workers) == s.to_multiset(),
    decreases s.len(),
{
    broadcast use vstd::seq_lib::group_to_multiset_ensures;

    if s.len() == 0 {
        lemma_filtered_union_empty(s, workers, workers);
        assert(s.to_multiset() =~= Multiset::<InfoHash>::empty()) by {
            assert(s.to_multiset().len() == 0);
        }
    } else {
        lemma_shard_partition(s.drop_last(), workers);
        lemma_filtered_union_step(s, workers, workers);
        assert(0 <= spec_shard(s.last(), workers) < workers);
        assert(s.drop_last().push(s.last()) =~= s);
        assert(s.to_multiset() == s.drop_last().to_multiset().insert(s.last()));
    }
}

/// Group a scrape's hashes by shard. Each group is exactly the input
/// hashes of its shard, in input order; groups come in ascending shard
/// order, one per addressed shard, none empty.
pub fn group_by_shard(hashes: &Vec<InfoHash>, request_workers: usize) -> (groups: Vec<
    (usize, Vec<InfoHash>),
>)
    requires
        request_workers > 0,
    ensures
        groups@.len() == spec_count_shards(hashes@, request_workers as int, request_workers as int),
        forall|g: int| #![trigger groups@[g]] 0 <= g < groups@.len() ==> {
            &&& groups@[g].0 < request_workers
            &&& groups@[g].1@ == spec_shard_filter(
                hashes@,
                request_workers as int,
                groups@[g].0 as int,
            )
            &&& groups@[g].1@.len() > 0
        },
        forall|g1: int, g2: int|
            0 <= g1 < g2 < groups@.len() ==> #[trigger] groups@[g1].0 < #[trigger] groups@[g2].0,
        forall|sh: int|
            0 <= sh < request_workers ==> (#[trigger] spec_has_shard(
                hashes@,
                request_workers as int,
                sh,
            ) <==> exists|g: int| 0 <= g < groups@.len() && groups@[g].0 == sh),
{
    let ghost workers = request_workers as int;
    let mut groups: Vec<(usize, Vec<InfoHash>)> = Vec::new();
    let mut s: usize = 0;
    while s < request_workers
        invariant
            request_workers > 0,
            s <= request_workers,
            groups@.len() == spec_count_shards(hashes@, workers, s as int),
            workers == request_workers as int,
            forall|g: int| #![trigger groups@[g]] 0 <= g < groups@.len() ==> {
                &&& groups@[g].0 < s
                &&& groups@[g].1@ == spec_shard_filter(hashes@, workers, groups@[g].0 as int)
                &&& groups@[g].1@.len() > 0
            },
            forall|g1: int, g2: int|
                0 <= g1 < g2 < groups@.len()
                    ==> #[trigger] groups@[g1].0 < #[trigger] groups@[g2].0,
            forall|sh: int|
                0 <= sh < s ==> (#[trigger] spec_has_shard(hashes@, workers, sh) <==> exists|g: int|
                    0 <= g < groups@.len() && groups@[g].0 == sh),
        decreases request_workers - s,
    {
        let mut bucket: Vec<InfoHash> = Vec::new();
        let mut i: usize = 0;
        while i < hashes.len()
            invariant
                i <= hashes@.len(),
                request_workers > 0,
                s < request_workers,
                workers == request_workers as int,
                bucket@ == spec_shard_filter(hashes@.take(i as int), workers, s as int),
            decreases hashes@.len() - i,
        {
            let h = hashes[i];
            proof {
                assert(hashes@.take(i as int + 1).drop_last() =~= hashes@.take(i as int));
                assert(hashes@.take(i as int + 1).last() == hashes@[i as int]);
            }
            if shard(&h, request_workers) == s {
                bucket.push(h);
            }
            i += 1;
        }
        proof {
            assert(hashes@.take(hashes@.len() as int) =~= hashes@);
            lemma_filter_nonempty(hashes@, workers, s as int);
        }
        let ghost groups_pre = groups@;
        let ghost bucket_view = bucket@;
        if bucket.len() > 0 {
            groups.push((s, bucket));
        }
        proof {
            if groups@.len() > groups_pre.len() {
                assert(groups@.drop_last() =~= groups_pre);
            }
            assert forall|sh: int| 0 <= sh < s as int + 1 implies (#[trigger] spec_has_shard(
                hashes@,
                workers,
                sh,
            ) <==> exists|g: int| 0 <= g < groups@.len() && groups@[g].0 == sh) by {
                if sh < s as int {
                    if spec_has_shard(hashes@, workers, sh) {
                        let g = choose|g: int|
                            0 <= g < groups_pre.len() && groups_pre[g].0 == sh;
                        assert(groups@[g].0 == sh);
                    }
                    if exists|g: int| 0 <= g < groups@.len() && groups@[g].0 == sh {
                        let g = choose|g: int| 0 <= g < groups@.len() && groups@[g].0 == sh;
                        assert(g < groups_pre.len());
                        assert(groups_pre[g].0 == sh);
                    }
                } else {
                    if spec_has_shard(hashes@, workers, sh) {
                        assert(bucket_view.len() > 0);
                        assert(groups@.last().0 == sh);
                    }
                    if exists|g: int| 0 <= g < groups@.len() && groups@[g].0 == sh {
                        let g = choose|g: int| 0 <= g < groups@.len() && groups@[g].0 == sh;
                        assert(g == groups@.len() - 1);
                        assert(bucket_view.len() > 0);
                    }
                }
            }
        }
        s += 1;
    }
    groups
}

/// The plan a request becomes: the mesh messages to send, each to its
/// request worker, and for a scrape the number of shard responses to
/// await.
pub struct Dispatch {
    /// `(request worker index, message)`, in ascending worker order.
    pub messages: Vec<(usize, ChannelRequest)>,
    /// For a scrape, the number of addressed shards; `None` for an
    /// announce, which awaits exactly one response.
    pub pending_scrape_shards: Option<usize>,
}

/// What `plan_dispatch` promises for an announce: exactly one message,
/// to the shard of the announced info-hash, envelope copied verbatim.
pub open spec fn spec_announce_plan_ok(
    req: AnnounceRequest,
    envelope: ResponseEnvelope,
    workers: int,
    msgs: Seq<(usize, ChannelRequest)>,
) -> bool {
    &&& msgs.len() == 1
    &&& msgs[0].0 as int == spec_shard(req.info_hash, workers)
    &&& msgs[0].1 matches ChannelRequest::Announce { envelope: e, request: r }
        && e == envelope && r.info_hash == req.info_hash
}

/// What `plan_dispatch` promises for a scrape: one message per
/// addressed shard, in ascending shard order, each carrying exactly
/// that shard's subset of the request's hashes, envelope copied
/// verbatim.
pub open spec fn spec_scrape_plan_ok(
    hashes: Seq<InfoHash>,
    envelope: ResponseEnvelope,
    workers: int,
    msgs: Seq<(usize, ChannelRequest)>,
) -> bool {
    &&& msgs.len() == spec_count_shards(hashes, workers, workers)
    &&& forall|g: int| #![trigger msgs[g]] 0 <= g < msgs.len() ==> {
        &&& (msgs[g].0 as int) < workers
        &&& msgs[g].1 matches ChannelRequest::Scrape { envelope: e, info_hashes: hs }
            && e == envelope
            && hs@ == spec_shard_filter(hashes, workers, msgs[g].0 as int)
            && hs@.len() > 0
    }
    &&& forall|g1: int, g2: int|
        0 <= g1 < g2 < msgs.len() ==> #[trigger] msgs[g1].0 < #[trigger] msgs[g2].0
    &&& forall|sh: int|
        0 <= sh < workers ==> (#[trigger] spec_has_shard(hashes, workers, sh) <==> exists|g: int|
            0 <= g < msgs.len() && msgs[g].0 == sh)
}

/// Turn a request into its mesh messages: an announce goes to the one
/// shard of its info-hash; a scrape is grouped by shard, one message
/// per non-empty group, and the group count is recorded as the number
/// of responses to await.
pub fn plan_dispatch(request: Request, envelope: ResponseEnvelope, request_workers: usize) -> (plan:
    Dispatch)
    requires
        request_workers > 0,
    ensures
        match request {
            Request::Announce(a) => {
                &&& spec_announce_plan_ok(a, envelope, request_workers as int, plan.messages@)
                &&& plan.pending_scrape_shards is None
            },
            Request::Scrape(sc) => {
                &&& spec_scrape_plan_ok(
                    sc.info_hashes@,
                    envelope,
                    request_workers as int,
                    plan.messages@,
                )
                &&& (plan.pending_scrape_shards matches Some(c) && c == plan.messages@.len())
            },
        },
{
    match request {
        Request::Announce(a) => {
            let consumer_index = shard(&a.info_hash, request_workers);
            let mut messages: Vec<(usize, ChannelRequest)> = Vec::new();
            messages.push((consumer_index, ChannelRequest::Announce { envelope, request: a }));
            Dispatch { messages, pending_scrape_shards: None }
        },
        Request::Scrape(sc) => {
            let mut groups = group_by_shard(&sc.info_hashes, request_workers);
            let ghost groups_seq = groups@;
            let mut messages: Vec<(usize, ChannelRequest)> = Vec::new();
            while groups.len() > 0
                invariant
                    messages@.len() + groups@.len() == groups_seq.len(),
                    groups@ == groups_seq.skip(messages@.len() as int),
                    forall|g: int| #![trigger messages@[g]] 0 <= g < messages@.len() ==> {
                        &&& messages@[g].0 == groups_seq[g].0
                        &&& messages@[g].1 matches ChannelRequest::Scrape {
                            envelope: e,
                            info_hashes: hs,
                        } && e == envelope && hs@ == groups_seq[g].1@
                    },
                decreases groups@.len(),
            {
                let ghost done = messages@.len() as int;
                let (s, bucket) = groups.remove(0);
                proof {
                    assert(groups_seq.skip(done)[0] == groups_seq[done]);
                    assert(groups_seq.skip(done).skip(1) =~= groups_seq.skip(done + 1));
                }
                messages.push((s, ChannelRequest::Scrape { envelope, info_hashes: bucket }));
            }
            let count = messages.len();
            proof {
                assert forall|sh: int| 0 <= sh < request_workers as int
                    implies (spec_has_shard(sc.info_hashes@, request_workers as int, sh)
                        <==> exists|g: int| 0 <= g < messages@.len() && messages@[g].0 == sh) by {
                    if spec_has_shard(sc.info_hashes@, request_workers as int, sh) {
                        let g = choose|g: int|
                            0 <= g < groups_seq.len() && groups_seq[g].0 == sh;
                        assert(messages@[g].0 == sh);
                    }
                    if exists|g: int| 0 <= g < messages@.len() && messages@[g].0 == sh {
                        let g = choose|g: int| 0 <= g < messages@.len() && messages@[g].0 == sh;
                        assert(groups_seq[g].0 == sh);
                    }
                }
            }
            Dispatch { messages, pending_scrape_shards: Some(count) }
        },
    }
}

} // verus!
