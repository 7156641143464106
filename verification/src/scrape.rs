//! Pending-scrape reassembly: merging the per-shard shares of a
//! `Scrape` response until all addressed shards have answered.

use vstd::prelude::*;
use vstd::map::*;
use crate::types::{InfoHash, ScrapeStatistics, StatsMap};

verus! {

/// Per-connection reassembly slot. Present iff the connection is
/// awaiting at least one shard response and has not yet emitted the
/// aggregated `Scrape` response.
#[derive(Clone, Debug)]
pub struct PendingScrape {
    /// Shards addressed by the original scrape whose response has not
    /// been merged yet.
    pub pending_worker_responses: usize,
    pub stats: StatsMap,
}

impl PendingScrape {
    /// Fresh slot for a scrape that addressed `shards` distinct shards.
    pub fn new(shards: usize) -> (r: PendingScrape)
        ensures
            r.pending_worker_responses == shards,
            r.stats.entries@ == Seq::<(InfoHash, ScrapeStatistics)>::empty(),
    {
        PendingScrape { pending_worker_responses: shards, stats: StatsMap::new() }
    }

    /// Merge one shard's share. Returns true when it was the last one
    /// awaited, i.e. the aggregated response is complete.
    pub fn merge_shard_response(&mut self, files: &StatsMap) -> (done: bool)
        requires
            old(self).pending_worker_responses > 0,
        ensures
            final(self).pending_worker_responses == old(self).pending_worker_responses - 1,
            final(self).stats.entries@ == old(self).stats.entries@ + files.entries@,
            final(self).stats@ == old(self).stats@.union_prefer_right(files@),
            done == (final(self).pending_worker_responses == 0),
    {
        let ghost pre = self.stats.entries@;
        let mut i: usize = 0;
        while i < files.entries.len()
            invariant
                i <= files.entries@.len(),
                self.stats.entries@ == pre + files.entries@.take(i as int),
                self.pending_worker_responses == old(self).pending_worker_responses,
            decreases files.entries@.len() - i,
        {
            let e = files.entries[i];
            self.stats.entries.push(e);
            proof {
                assert(pre + files.entries@.take(i as int + 1)
                    =~= (pre + files.entries@.take(i as int)).push(files.entries@[i as int]));
            }
            i += 1;
        }
        proof {
            assert(files.entries@.take(files.entries@.len() as int) =~= files.entries@);
            lemma_map_of_append(pre, files.entries@);
        }
        self.pending_worker_responses = self.pending_worker_responses - 1;
        self.pending_worker_responses == 0
    }
}

/// Concatenating entry lists unions their maps, the right side
/// winning. This is what makes appending shard shares a map merge.
pub proof fn lemma_map_of_append(a: Seq<(InfoHash, ScrapeStatistics)>, b: Seq<(InfoHash, ScrapeStatistics)>)
    ensures
        StatsMap::map_of(a + b) == StatsMap::map_of(a).union_prefer_right(StatsMap::map_of(b)),
    decreases b.len(),
{
    if b.len() == 0 {
        assert(a + b =~= a);
        assert(StatsMap::map_of(a).union_prefer_right(StatsMap::map_of(b)) =~= StatsMap::map_of(a));
    } else {
        lemma_map_of_append(a, b.drop_last());
        assert((a + b).drop_last() =~= a + b.drop_last());
        assert((a + b).last() == b.last());
        assert(StatsMap::map_of(a).union_prefer_right(StatsMap::map_of(b.drop_last())).insert(b.last().0@, b.last().1)
            =~= StatsMap::map_of(a).union_prefer_right(StatsMap::map_of(b.drop_last()).insert(b.last().0@, b.last().1)));
    }
}

/// Scrape merge is commutative over the `files` map, provided the two
/// shares cover disjoint hash sets — as shares from distinct shards
/// always do, the shard being a function of the hash.
pub proof fn lemma_merge_commutative(m1: Map<Seq<u8>, ScrapeStatistics>, m2: Map<Seq<u8>, ScrapeStatistics>)
    requires
        m1.dom().disjoint(m2.dom()),
    ensures
        m1.union_prefer_right(m2) == m2.union_prefer_right(m1),
{
    assert(m1.union_prefer_right(m2) =~= m2.union_prefer_right(m1));
}

/// Scrape merge is associative over the `files` map.
pub proof fn lemma_merge_associative(
    m1: Map<Seq<u8>, ScrapeStatistics>,
    m2: Map<Seq<u8>, ScrapeStatistics>,
    m3: Map<Seq<u8>, ScrapeStatistics>,
)
    ensures
        m1.union_prefer_right(m2).union_prefer_right(m3)
            == m1.union_prefer_right(m2.union_prefer_right(m3)),
{
    assert(m1.union_prefer_right(m2).union_prefer_right(m3)
        =~= m1.union_prefer_right(m2.union_prefer_right(m3)));
}

/// Lexicographic order on hash bytes, the key order of the files
/// map's serialized form.
pub open spec fn spec_lex_lt(a: Seq<u8>, b: Seq<u8>) -> bool
    decreases a.len(),
{
    if a.len() == 0 || b.len() == 0 {
        false
    } else if a[0] < b[0] {
        true
    } else if a[0] > b[0] {
        false
    } else {
        spec_lex_lt(a.skip(1), b.skip(1))
    }
}

/// On equal lengths the order is strict and total: of two distinct
/// keys one is smaller, and never both.
pub proof fn lemma_lex_total(a: Seq<u8>, b: Seq<u8>)
    requires
        a.len() == b.len(),
    ensures
        !spec_lex_lt(a, b) && !spec_lex_lt(b, a) ==> a == b,
        spec_lex_lt(a, b) ==> !spec_lex_lt(b, a),
        spec_lex_lt(a, b) ==> a != b,
    decreases a.len(),
{
    if a.len() > 0 {
        if a[0] == b[0] {
            lemma_lex_total(a.skip(1), b.skip(1));
            if !spec_lex_lt(a, b) && !spec_lex_lt(b, a) {
                assert(a.skip(1) == b.skip(1));
                assert forall|i: int| 0 <= i < a.len() implies a[i] == b[i] by {
                    if i >= 1 {
                        assert(a.skip(1)[i - 1] == a[i]);
                        assert(b.skip(1)[i - 1] == b[i]);
                    }
                }
                assert(a =~= b);
            }
            if spec_lex_lt(a, b) {
                assert(a.skip(1) != b.skip(1));
                assert(a != b) by {
                    if a == b {
                        assert(a.skip(1) =~= b.skip(1));
                    }
                }
            }
        }
    } else {
        assert(a =~= b);
    }
}

pub proof fn lemma_lex_trans(a: Seq<u8>, b: Seq<u8>, c: Seq<u8>)
    requires
        a.len() == b.len(),
        b.len() == c.len(),
        spec_lex_lt(a, b),
        spec_lex_lt(b, c),
    ensures
        spec_lex_lt(a, c),
    decreases a.len(),
{
    if a.len() > 0 {
        if a[0] == b[0] && b[0] == c[0] {
            lemma_lex_trans(a.skip(1), b.skip(1), c.skip(1));
        }
    }
}

/// Entries in strictly ascending key order; the keys are then
/// pairwise distinct.
pub open spec fn spec_sorted_entries(s: Seq<(InfoHash, ScrapeStatistics)>) -> bool {
    forall|i: int, j: int|
        #![trigger s[i], s[j]]
        0 <= i < j < s.len() ==> spec_lex_lt(s[i].0@, s[j].0@)
}

/// Which keys the entry map holds: exactly the entries' keys.
pub proof fn lemma_map_of_keys(s: Seq<(InfoHash, ScrapeStatistics)>)
    ensures
        forall|k: Seq<u8>|
            #[trigger] StatsMap::map_of(s).dom().contains(k) <==> (exists|i: int|
                0 <= i < s.len() && #[trigger] s[i].0@ == k),
    decreases s.len(),
{
    if s.len() > 0 {
        lemma_map_of_keys(s.drop_last());
        assert forall|k: Seq<u8>| #[trigger] StatsMap::map_of(s).dom().contains(k)
            implies exists|i: int| 0 <= i < s.len() && #[trigger] s[i].0@ == k by {
            if k == s.last().0@ {
                assert(s[s.len() - 1].0@ == k);
            } else {
                assert(StatsMap::map_of(s.drop_last()).dom().contains(k));
                let i = choose|i: int|
                    0 <= i < s.drop_last().len() && #[trigger] s.drop_last()[i].0@ == k;
                assert(s.drop_last()[i] == s[i]);
                assert(s[i].0@ == k);
            }
        }
        assert forall|k: Seq<u8>|
            (exists|i: int| 0 <= i < s.len() && #[trigger] s[i].0@ == k)
            implies #[trigger] StatsMap::map_of(s).dom().contains(k) by {
            let i = choose|i: int| 0 <= i < s.len() && s[i].0@ == k;
            if i < s.len() - 1 {
                assert(s.drop_last()[i] == s[i]);
                assert(s.drop_last()[i].0@ == k);
                assert(StatsMap::map_of(s.drop_last()).dom().contains(k));
            }
        }
    }
}

/// With pairwise distinct keys, each entry's value is what the map
/// holds for its key.
pub proof fn lemma_map_of_values(s: Seq<(InfoHash, ScrapeStatistics)>)
    requires
        forall|i: int, j: int|
            #![trigger s[i], s[j]]
            0 <= i < j < s.len() ==> s[i].0@ != s[j].0@,
    ensures
        forall|i: int|
            0 <= i < s.len() ==> StatsMap::map_of(s)[#[trigger] s[i].0@] == s[i].1,
    decreases s.len(),
{
    if s.len() > 0 {
        lemma_map_of_values(s.drop_last());
        assert forall|i: int| 0 <= i < s.len()
            implies StatsMap::map_of(s)[#[trigger] s[i].0@] == s[i].1 by {
            if i < s.len() - 1 {
                assert(s.drop_last()[i] == s[i]);
                assert(s[i].0@ != s[s.len() - 1].0@);
            }
        }
    }
}

proof fn lemma_sorted_distinct(s: Seq<(InfoHash, ScrapeStatistics)>)
    requires
        spec_sorted_entries(s),
    ensures
        forall|i: int, j: int|
            #![trigger s[i], s[j]]
            0 <= i < j < s.len() ==> s[i].0@ != s[j].0@,
{
    assert forall|i: int, j: int| 0 <= i < j < s.len()
        implies #[trigger] s[i].0@ != #[trigger] s[j].0@ by {
        lemma_lex_total(s[i].0@, s[j].0@);
    }
}

/// A strictly key-sorted entry list is determined by its map: two
/// sorted lists with the same files map are the same list, so the
/// serialized scrape response is byte-deterministic however the
/// shard responses arrived.
pub proof fn lemma_sorted_entries_unique(
    s1: Seq<(InfoHash, ScrapeStatistics)>,
    s2: Seq<(InfoHash, ScrapeStatistics)>,
)
    requires
        spec_sorted_entries(s1),
        spec_sorted_entries(s2),
        StatsMap::map_of(s1) == StatsMap::map_of(s2),
    ensures
        s1 == s2,
    decreases s1.len(),
{
    broadcast use vstd::array::group_array_axioms;

    lemma_map_of_keys(s1);
    lemma_map_of_keys(s2);
    lemma_sorted_distinct(s1);
    lemma_sorted_distinct(s2);
    lemma_map_of_values(s1);
    lemma_map_of_values(s2);
    if s1.len() == 0 {
        assert(s2.len() == 0) by {
            if s2.len() > 0 {
                assert(s2[0].0@ == s2[0].0@);
                assert(StatsMap::map_of(s1).dom().contains(s2[0].0@));
            }
        }
        assert(s1 =~= s2);
    } else {
        assert(s2.len() > 0) by {
            assert(s1[0].0@ == s1[0].0@);
            assert(StatsMap::map_of(s2).dom().contains(s1[0].0@));
            if s2.len() == 0 {
                let i = choose|i: int| 0 <= i < s2.len() && s2[i].0@ == s1[0].0@;
            }
        }
        let k1 = s1.last().0@;
        let k2 = s2.last().0@;
        assert(StatsMap::map_of(s2).dom().contains(k1)) by {
            assert(s1[s1.len() - 1].0@ == k1);
        }
        let j = choose|j: int| 0 <= j < s2.len() && s2[j].0@ == k1;
        assert(StatsMap::map_of(s1).dom().contains(k2)) by {
            assert(s2[s2.len() - 1].0@ == k2);
        }
        let i = choose|i: int| 0 <= i < s1.len() && s1[i].0@ == k2;
        assert(k1 == k2) by {
            if j < s2.len() - 1 && i < s1.len() - 1 {
                assert(spec_lex_lt(k1, k2));
                assert(spec_lex_lt(k2, k1));
                lemma_lex_total(k1, k2);
            }
        }
        assert(s1.last().1 == s2.last().1) by {
            assert(s1[s1.len() - 1].0@ == k1);
            assert(s2[s2.len() - 1].0@ == k1);
        }
        assert(s1.last() == s2.last()) by {
            assert(s1.last().0.bytes =~= s2.last().0.bytes);
        }
        let d1 = s1.drop_last();
        let d2 = s2.drop_last();
        assert(spec_sorted_entries(d1)) by {
            assert forall|x: int, y: int| 0 <= x < y < d1.len()
                implies spec_lex_lt(#[trigger] d1[x].0@, #[trigger] d1[y].0@) by {
                assert(d1[x] == s1[x] && d1[y] == s1[y]);
            }
        }
        assert(spec_sorted_entries(d2)) by {
            assert forall|x: int, y: int| 0 <= x < y < d2.len()
                implies spec_lex_lt(#[trigger] d2[x].0@, #[trigger] d2[y].0@) by {
                assert(d2[x] == s2[x] && d2[y] == s2[y]);
            }
        }
        lemma_map_of_keys(d1);
        lemma_map_of_keys(d2);
        lemma_sorted_distinct(d1);
        lemma_sorted_distinct(d2);
        lemma_map_of_values(d1);
        lemma_map_of_values(d2);
        assert(StatsMap::map_of(d1) == StatsMap::map_of(d2)) by {
            assert forall|k: Seq<u8>| true implies (StatsMap::map_of(d1).dom().contains(k)
                <==> StatsMap::map_of(d2).dom().contains(k)) by {
                if StatsMap::map_of(d1).dom().contains(k) {
                    let x = choose|x: int| 0 <= x < d1.len() && d1[x].0@ == k;
                    assert(s1[x].0@ == k);
                    assert(k != k1) by {
                        assert(spec_lex_lt(s1[x].0@, s1[s1.len() - 1].0@));
                        lemma_lex_total(s1[x].0@, s1[s1.len() - 1].0@);
                    }
                    assert(StatsMap::map_of(s2).dom().contains(k));
                    let y = choose|y: int| 0 <= y < s2.len() && s2[y].0@ == k;
                    assert(y < s2.len() - 1);
                    assert(d2[y].0@ == k);
                }
                if StatsMap::map_of(d2).dom().contains(k) {
                    let x = choose|x: int| 0 <= x < d2.len() && d2[x].0@ == k;
                    assert(s2[x].0@ == k);
                    assert(k != k1) by {
                        assert(spec_lex_lt(s2[x].0@, s2[s2.len() - 1].0@));
                        lemma_lex_total(s2[x].0@, s2[s2.len() - 1].0@);
                    }
                    assert(StatsMap::map_of(s1).dom().contains(k));
                    let y = choose|y: int| 0 <= y < s1.len() && s1[y].0@ == k;
                    assert(y < s1.len() - 1);
                    assert(d1[y].0@ == k);
                }
            }
            assert forall|k: Seq<u8>| StatsMap::map_of(d1).dom().contains(k)
                implies StatsMap::map_of(d1)[k] == StatsMap::map_of(d2)[k] by {
                let x = choose|x: int| 0 <= x < d1.len() && d1[x].0@ == k;
                let y = choose|y: int| 0 <= y < d2.len() && d2[y].0@ == k;
                assert(StatsMap::map_of(d1)[k] == d1[x].1);
                assert(StatsMap::map_of(d2)[k] == d2[y].1);
                assert(s1[x].0@ == k && s2[y].0@ == k);
                assert(StatsMap::map_of(s1)[k] == s1[x].1);
                assert(StatsMap::map_of(s2)[k] == s2[y].1);
            }
            assert(StatsMap::map_of(d1) =~= StatsMap::map_of(d2));
        }
        lemma_sorted_entries_unique(d1, d2);
        assert(s1 =~= s2) by {
            assert forall|x: int| 0 <= x < s1.len() implies s1[x] == s2[x] by {
                if x < s1.len() - 1 {
                    assert(d1[x] == d2[x]);
                }
            }
        }
    }
}

/// How two hash keys compare.
#[derive(Clone, Copy, Debug, PartialEq, Eq, Structural)]
pub enum KeyOrder {
    Less,
    Equal,
    Greater,
}

/// Lexicographic comparison of two hash keys.
pub fn key_cmp(a: &InfoHash, b: &InfoHash) -> (r: KeyOrder)
    ensures
        r is Less <==> spec_lex_lt(a@, b@),
        r is Greater <==> spec_lex_lt(b@, a@),
        r is Equal <==> a@ == b@,
{
    proof {
        assert(a@.skip(0) =~= a@);
        assert(b@.skip(0) =~= b@);
    }
    let mut i: usize = 0;
    while i < 20
        invariant
            i <= 20,
            forall|j: int| 0 <= j < i ==> a@[j] == b@[j],
            spec_lex_lt(a@, b@) == spec_lex_lt(a@.skip(i as int), b@.skip(i as int)),
            spec_lex_lt(b@, a@) == spec_lex_lt(b@.skip(i as int), a@.skip(i as int)),
        decreases 20 - i,
    {
        let x = a.bytes[i];
        let y = b.bytes[i];
        proof {
            assert(a@.skip(i as int)[0] == a@[i as int]);
            assert(b@.skip(i as int)[0] == b@[i as int]);
            assert(a@.skip(i as int).skip(1) =~= a@.skip(i as int + 1));
            assert(b@.skip(i as int).skip(1) =~= b@.skip(i as int + 1));
        }
        if x < y {
            proof {
                lemma_lex_total(a@, b@);
            }
            return KeyOrder::Less;
        }
        if x > y {
            proof {
                lemma_lex_total(a@, b@);
            }
            return KeyOrder::Greater;
        }
        i += 1;
    }
    proof {
        assert(a@.skip(20).len() == 0);
        assert(a@ =~= b@);
    }
    KeyOrder::Equal
}

/// Insert one entry into a strictly key-sorted list, replacing the
/// entry of an equal key (the newcomer wins, as merging does).
fn stats_insert_sorted(out: &mut Vec<(InfoHash, ScrapeStatistics)>, h: InfoHash, v: ScrapeStatistics)
    requires
        spec_sorted_entries(old(out)@),
    ensures
        spec_sorted_entries(final(out)@),
        StatsMap::map_of(final(out)@) == StatsMap::map_of(old(out)@).insert(h@, v),
{
    broadcast use vstd::array::group_array_axioms;

    let n = out.len();
    let mut i: usize = 0;
    let mut found_equal = false;
    let mut found_greater = false;
    while i < n && !found_equal && !found_greater
        invariant
            n == out@.len(),
            out@ == old(out)@,
            spec_sorted_entries(out@),
            i <= n,
            forall|j: int| 0 <= j < i ==> spec_lex_lt(#[trigger] out@[j].0@, h@),
            found_equal ==> i < n && out@[i as int].0@ == h@,
            found_greater ==> i < n && spec_lex_lt(h@, out@[i as int].0@),
        decreases n - i + (if found_equal || found_greater { 0int } else { 1 }),
    {
        match key_cmp(&out[i].0, &h) {
            KeyOrder::Less => { i += 1; },
            KeyOrder::Equal => { found_equal = true; },
            KeyOrder::Greater => { found_greater = true; },
        }
    }
    proof {
        lemma_map_of_keys(out@);
        lemma_sorted_distinct(out@);
        lemma_map_of_values(out@);
    }
    if found_equal {
        let ghost pre = out@;
        out[i] = (h, v);
        proof {
            assert(out@ == pre.update(i as int, (h, v)));
            assert(pre[i as int].0.bytes =~= h.bytes);
            assert(pre[i as int].0 == h);
            assert forall|x: int, y: int|
                #![trigger out@[x], out@[y]]
                0 <= x < y < out@.len() implies spec_lex_lt(out@[x].0@, out@[y].0@) by {
                assert(out@[x].0 == pre[x].0);
                assert(out@[y].0 == pre[y].0);
            }
            lemma_map_of_keys(out@);
            lemma_sorted_distinct(out@);
            lemma_map_of_values(out@);
            assert forall|k: Seq<u8>| true implies (#[trigger] StatsMap::map_of(out@).dom().contains(k)
                <==> StatsMap::map_of(pre).insert(h@, v).dom().contains(k)) by {
                if StatsMap::map_of(out@).dom().contains(k) {
                    let x = choose|x: int| 0 <= x < out@.len() && #[trigger] out@[x].0@ == k;
                    assert(pre[x].0@ == k);
                    assert(StatsMap::map_of(pre).dom().contains(k));
                }
                if k == h@ {
                    assert(out@[i as int].0@ == k);
                    assert(StatsMap::map_of(out@).dom().contains(k));
                } else if StatsMap::map_of(pre).dom().contains(k) {
                    let x = choose|x: int| 0 <= x < pre.len() && #[trigger] pre[x].0@ == k;
                    assert(out@[x].0@ == k);
                    assert(StatsMap::map_of(out@).dom().contains(k));
                }
            }
            assert forall|k: Seq<u8>| #[trigger] StatsMap::map_of(out@).dom().contains(k)
                implies StatsMap::map_of(out@)[k] == StatsMap::map_of(pre).insert(h@, v)[k] by {
                let x = choose|x: int| 0 <= x < out@.len() && #[trigger] out@[x].0@ == k;
                assert(StatsMap::map_of(out@)[k] == out@[x].1);
                if k == h@ {
                    assert(x == i as int) by {
                        if x != i as int {
                            assert(pre[x].0@ == k);
                            lemma_lex_total(pre[x].0@, pre[i as int].0@);
                        }
                    }
                } else {
                    assert(pre[x] == out@[x]);
                    assert(StatsMap::map_of(pre)[k] == pre[x].1);
                }
            }
            assert(StatsMap::map_of(out@) =~= StatsMap::map_of(pre).insert(h@, v));
        }
    } else {
        let ghost pre = out@;
        out.insert(i, (h, v));
        proof {
            assert(out@ == pre.insert(i as int, (h, v)));
            assert(i < pre.len() ==> spec_lex_lt(h@, pre[i as int].0@));
            assert forall|x: int, y: int|
                #![trigger out@[x], out@[y]]
                0 <= x < y < out@.len() implies spec_lex_lt(out@[x].0@, out@[y].0@) by {
                let px = if x < i as int { x } else { x - 1 };
                let py = if y < i as int { y } else { y - 1 };
                if x == i as int {
                    assert(out@[x] == (h, v));
                    assert(out@[y] == pre[py]);
                    if py > i as int - 1 + 1 - 1 {
                    }
                    assert(py >= i as int);
                    if py == i as int {
                        assert(spec_lex_lt(h@, pre[py].0@));
                    } else {
                        lemma_lex_trans(h@, pre[i as int].0@, pre[py].0@);
                    }
                } else if y == i as int {
                    assert(out@[x] == pre[px]);
                    assert(px < i as int);
                    assert(spec_lex_lt(pre[px].0@, h@));
                } else {
                    assert(out@[x] == pre[px]);
                    assert(out@[y] == pre[py]);
                    if px < i as int && py >= i as int {
                        if px < i as int && py == i as int {
                        }
                    }
                    assert(px < py || px == py);
                    if px == py {
                        assert(x < i as int && y > i as int);
                        assert(false);
                    }
                }
            }
            assert(!StatsMap::map_of(pre).dom().contains(h@)) by {
                if StatsMap::map_of(pre).dom().contains(h@) {
                    let x = choose|x: int| 0 <= x < pre.len() && #[trigger] pre[x].0@ == h@;
                    if x < i as int {
                        lemma_lex_total(pre[x].0@, h@);
                    } else {
                        assert(spec_lex_lt(h@, pre[i as int].0@));
                        if x == i as int {
                            lemma_lex_total(h@, pre[x].0@);
                        } else {
                            lemma_lex_trans(h@, pre[i as int].0@, pre[x].0@);
                            lemma_lex_total(h@, pre[x].0@);
                        }
                    }
                }
            }
            lemma_map_of_keys(out@);
            lemma_sorted_distinct(out@);
            lemma_map_of_values(out@);
            assert forall|k: Seq<u8>| true implies (#[trigger] StatsMap::map_of(out@).dom().contains(k)
                <==> StatsMap::map_of(pre).insert(h@, v).dom().contains(k)) by {
                if StatsMap::map_of(out@).dom().contains(k) {
                    let x = choose|x: int| 0 <= x < out@.len() && #[trigger] out@[x].0@ == k;
                    if x != i as int {
                        let px = if x < i as int { x } else { x - 1 };
                        assert(pre[px].0@ == k);
                        assert(StatsMap::map_of(pre).dom().contains(k));
                    }
                }
                if k == h@ {
                    assert(out@[i as int].0@ == k);
                    assert(StatsMap::map_of(out@).dom().contains(k));
                } else if StatsMap::map_of(pre).dom().contains(k) {
                    let x = choose|x: int| 0 <= x < pre.len() && #[trigger] pre[x].0@ == k;
                    let ox = if x < i as int { x } else { x + 1 };
                    assert(out@[ox].0@ == k);
                    assert(StatsMap::map_of(out@).dom().contains(k));
                }
            }
            assert forall|k: Seq<u8>| #[trigger] StatsMap::map_of(out@).dom().contains(k)
                implies StatsMap::map_of(out@)[k] == StatsMap::map_of(pre).insert(h@, v)[k] by {
                let x = choose|x: int| 0 <= x < out@.len() && #[trigger] out@[x].0@ == k;
                assert(StatsMap::map_of(out@)[k] == out@[x].1);
                if k == h@ {
                    assert(x == i as int) by {
                        if x != i as int {
                            let px = if x < i as int { x } else { x - 1 };
                            assert(pre[px].0@ == h@);
                            assert(StatsMap::map_of(pre).dom().contains(h@));
                        }
                    }
                } else {
                    assert(x != i as int);
                    let px = if x < i as int { x } else { x - 1 };
                    assert(pre[px] == out@[x]);
                    assert(StatsMap::map_of(pre)[k] == pre[px].1);
                }
            }
            assert(StatsMap::map_of(out@) =~= StatsMap::map_of(pre).insert(h@, v));
        }
    }
}

/// The merged statistics as the ordered map the wire format wants:
/// strictly sorted by info-hash, one entry per key, the map itself
/// unchanged. By `lemma_sorted_entries_unique` this list — and so the
/// serialized response — depends only on the map, not on the order
/// the shard responses arrived in.
pub fn sorted_stats(m: &StatsMap) -> (r: StatsMap)
    ensures
        spec_sorted_entries(r.entries@),
        r@ == m@,
{
    let mut out: Vec<(InfoHash, ScrapeStatistics)> = Vec::new();
    let mut i: usize = 0;
    while i < m.entries.len()
        invariant
            i <= m.entries@.len(),
            spec_sorted_entries(out@),
            StatsMap::map_of(out@) == StatsMap::map_of(m.entries@.take(i as int)),
        decreases m.entries@.len() - i,
    {
        let e = m.entries[i];
        stats_insert_sorted(&mut out, e.0, e.1);
        proof {
            assert(m.entries@.take(i as int + 1).drop_last() =~= m.entries@.take(i as int));
            assert(m.entries@.take(i as int + 1).last() == m.entries@[i as int]);
        }
        i += 1;
    }
    proof {
        assert(m.entries@.take(m.entries@.len() as int) =~= m.entries@);
    }
    StatsMap { entries: out }
}

} // verus!
