//! The tracking graph: who wants notice of whose removal.
//!
//! The edges are kept in a vector in which no edge occurs twice, and are
//! read as a set of pairs (watcher, watched).

use vstd::prelude::*;
use crate::address::Address;
use crate::message::{AgentMsg, Notice};
use super::registry::{
    distinct_keys, full_at, full_in, has_key, index_of, key_at, lemma_lookup, lemma_update,
    mailboxes_of, position, Slot,
};

verus! {

/// One edge of the tracking graph.
pub(crate) struct Edge {
    pub(crate) watcher: Address,
    pub(crate) watched: Address,
}

/// The `i`-th edge as a pair (watcher, watched).
pub(crate) open spec fn pair_at(edges: Seq<Edge>, i: int) -> (Seq<u8>, Seq<u8>) {
    (edges[i].watcher@, edges[i].watched@)
}

/// No edge occurs twice.
pub(crate) open spec fn distinct_pairs(edges: Seq<Edge>) -> bool {
    forall|i: int, j: int| 0 <= i < j < edges.len() ==> pair_at(edges, i) != pair_at(edges, j)
}

/// Whether `pair` is among the first `upto` edges.
pub(crate) open spec fn has_pair_before(edges: Seq<Edge>, upto: int, pair: (Seq<u8>, Seq<u8>)) -> bool {
    exists|i: int| 0 <= i < upto && pair_at(edges, i) == pair
}

/// Whether `pair` is among the edges from place `from` on.
pub(crate) open spec fn has_pair_from(edges: Seq<Edge>, from: int, pair: (Seq<u8>, Seq<u8>)) -> bool {
    exists|i: int| from <= i < edges.len() && pair_at(edges, i) == pair
}

/// Whether `pair` neither starts nor ends at `address`.
pub(crate) open spec fn clear_of(pair: (Seq<u8>, Seq<u8>), address: Seq<u8>) -> bool {
    pair.0 != address && pair.1 != address
}

/// The edges as a set of pairs.
pub(crate) open spec fn tracking_of(edges: Seq<Edge>) -> Set<(Seq<u8>, Seq<u8>)> {
    Set::new(|pair: (Seq<u8>, Seq<u8>)| has_pair_before(edges, edges.len() as int, pair))
}

/// The first `upto + 1` edges hold a pair exactly if the first `upto`
/// do or the next one is that pair.
pub(crate) proof fn lemma_pair_step(edges: Seq<Edge>, upto: int, pair: (Seq<u8>, Seq<u8>))
    requires
        0 <= upto < edges.len(),
    ensures
        has_pair_before(edges, upto + 1, pair) <==> has_pair_before(edges, upto, pair) || pair_at(
            edges,
            upto,
        ) == pair,
{
    if has_pair_before(edges, upto + 1, pair) {
        let i = choose|i: int| 0 <= i < upto + 1 && pair_at(edges, i) == pair;
        if i < upto {
            assert(has_pair_before(edges, upto, pair));
        }
    }
    if has_pair_before(edges, upto, pair) {
        let i = choose|i: int| 0 <= i < upto && pair_at(edges, i) == pair;
        assert(0 <= i < upto + 1 && pair_at(edges, i) == pair);
    }
    if pair_at(edges, upto) == pair {
        assert(0 <= upto < upto + 1 && pair_at(edges, upto) == pair);
    }
}

/// Adds the edge from `watcher` to `watched`, unless it is there already.
pub(crate) fn insert_edge(edges: &mut Vec<Edge>, watcher: Address, watched: Address)
    requires
        distinct_pairs(old(edges)@),
    ensures
        distinct_pairs(final(edges)@),
        tracking_of(final(edges)@) == tracking_of(old(edges)@).insert((watcher@, watched@)),
{
    let ghost before = edges@;
    let ghost pair = (watcher@, watched@);
    let mut i: usize = 0;
    while i < edges.len()
        invariant
            i <= edges@.len(),
            edges@ == before,
            distinct_pairs(before),
            pair == (watcher@, watched@),
            forall|j: int| 0 <= j < i ==> pair_at(edges@, j) != pair,
        decreases edges@.len() - i,
    {
        if edges[i].watcher == watcher && edges[i].watched == watched {
            proof {
                assert(pair_at(before, i as int) == pair);
                assert(has_pair_before(before, before.len() as int, pair));
                assert(tracking_of(before) =~= tracking_of(before).insert(pair));
            }
            return ;
        }
        i += 1;
    }
    edges.push(Edge { watcher, watched });
    proof {
        let after = edges@;
        assert(pair_at(after, before.len() as int) == pair);
        assert forall|a: int, b: int| 0 <= a < b < after.len() implies pair_at(after, a)
            != pair_at(after, b) by {
            assert(pair_at(after, a) == pair_at(before, a));
            if b < before.len() {
                assert(pair_at(after, b) == pair_at(before, b));
            }
        }
        assert forall|p: (Seq<u8>, Seq<u8>)|
            tracking_of(after).contains(p) <==> tracking_of(before).insert(pair).contains(p) by {
            if has_pair_before(after, after.len() as int, p) {
                let j = choose|j: int| 0 <= j < after.len() && pair_at(after, j) == p;
                if j < before.len() {
                    assert(pair_at(before, j) == p);
                    assert(has_pair_before(before, before.len() as int, p));
                }
            }
            if has_pair_before(before, before.len() as int, p) {
                let j = choose|j: int| 0 <= j < before.len() && pair_at(before, j) == p;
                assert(pair_at(after, j) == p);
                assert(has_pair_before(after, after.len() as int, p));
            }
            if p == pair {
                assert(has_pair_before(after, after.len() as int, p));
            }
        }
        assert(tracking_of(after) =~= tracking_of(before).insert(pair));
    }
}

/// Takes out every edge that starts or ends at `address`.
pub(crate) fn drop_edges(edges: &mut Vec<Edge>, address: &Address)
    requires
        distinct_pairs(old(edges)@),
    ensures
        distinct_pairs(final(edges)@),
        tracking_of(final(edges)@) == Set::new(
            |pair: (Seq<u8>, Seq<u8>)|
                tracking_of(old(edges)@).contains(pair) && pair.0 != address@ && pair.1
                    != address@,
        ),
{
    let ghost start = edges@;
    let ghost gone = address@;
    let mut kept: Vec<Edge> = Vec::new();
    while edges.len() > 0
        invariant
            gone == address@,
            distinct_pairs(start),
            distinct_pairs(kept@),
            edges@.len() <= start.len(),
            forall|i: int| 0 <= i < edges@.len() ==> edges@[i] == start[i],
            forall|j: int|
                0 <= j < kept@.len() ==> has_pair_from(
                    start,
                    edges@.len() as int,
                    #[trigger] pair_at(kept@, j),
                ) && clear_of(pair_at(kept@, j), gone),
            forall|i: int|
                edges@.len() <= i < start.len() && clear_of(#[trigger] pair_at(start, i), gone)
                    ==> has_pair_before(kept@, kept@.len() as int, pair_at(start, i)),
        decreases edges@.len(),
    {
        let ghost n = edges@.len() as int;
        let ghost held = kept@;
        let last = edges.pop();
        match last {
            None => {},
            Some(edge) => {
                assert(pair_at(start, n - 1) == (edge.watcher@, edge.watched@));
                if edge.watcher == *address || edge.watched == *address {
                    proof {
                        assert forall|j: int| 0 <= j < held.len() implies has_pair_from(
                            start,
                            n - 1,
                            #[trigger] pair_at(held, j),
                        ) by {
                            let w = choose|w: int|
                                n <= w < start.len() && pair_at(start, w) == pair_at(held, j);
                            assert(n - 1 <= w < start.len() && pair_at(start, w) == pair_at(
                                held,
                                j,
                            ));
                        }
                    }
                } else {
                    kept.push(edge);
                    proof {
                        let now = kept@;
                        assert(pair_at(now, held.len() as int) == pair_at(start, n - 1));
                        assert forall|j: int| 0 <= j < now.len() implies has_pair_from(
                            start,
                            n - 1,
                            #[trigger] pair_at(now, j),
                        ) && clear_of(pair_at(now, j), gone) by {
                            if j < held.len() {
                                assert(pair_at(now, j) == pair_at(held, j));
                                let w = choose|w: int|
                                    n <= w < start.len() && pair_at(start, w) == pair_at(held, j);
                                assert(n - 1 <= w < start.len() && pair_at(start, w) == pair_at(
                                    now,
                                    j,
                                ));
                            } else {
                                assert(n - 1 <= n - 1 < start.len() && pair_at(start, n - 1)
                                    == pair_at(now, j));
                            }
                        }
                        assert forall|a: int, b: int| 0 <= a < b < now.len() implies pair_at(
                            now,
                            a,
                        ) != pair_at(now, b) by {
                            assert(pair_at(now, a) == pair_at(held, a));
                            if b < held.len() {
                                assert(pair_at(now, b) == pair_at(held, b));
                            } else {
                                let w = choose|w: int|
                                    n <= w < start.len() && pair_at(start, w) == pair_at(held, a);
                                assert(pair_at(start, n - 1) != pair_at(start, w));
                            }
                        }
                        assert forall|i: int|
                            n - 1 <= i < start.len() && clear_of(
                                #[trigger] pair_at(start, i),
                                gone,
                            ) implies has_pair_before(
                            now,
                            now.len() as int,
                            pair_at(start, i),
                        ) by {
                            if i == n - 1 {
                                assert(0 <= held.len() < now.len() && pair_at(
                                    now,
                                    held.len() as int,
                                ) == pair_at(start, i));
                            } else {
                                let w = choose|w: int|
                                    0 <= w < held.len() && pair_at(held, w) == pair_at(start, i);
                                assert(0 <= w < now.len() && pair_at(now, w) == pair_at(start, i));
                            }
                        }
                    }
                }
            },
        }
    }
    proof {
        let target = Set::new(
            |pair: (Seq<u8>, Seq<u8>)|
                tracking_of(start).contains(pair) && pair.0 != gone && pair.1 != gone,
        );
        assert forall|p: (Seq<u8>, Seq<u8>)| tracking_of(kept@).contains(p) <==> target.contains(
            p,
        ) by {
            if has_pair_before(kept@, kept@.len() as int, p) {
                let j = choose|j: int| 0 <= j < kept@.len() && pair_at(kept@, j) == p;
                assert(has_pair_from(start, 0, pair_at(kept@, j)));
                let w = choose|w: int| 0 <= w < start.len() && pair_at(start, w) == p;
                assert(has_pair_before(start, start.len() as int, p));
                assert(clear_of(pair_at(kept@, j), gone));
            }
            if has_pair_before(start, start.len() as int, p) && p.0 != gone && p.1 != gone {
                let w = choose|w: int| 0 <= w < start.len() && pair_at(start, w) == p;
                assert(clear_of(pair_at(start, w), gone));
            }
        }
        assert(tracking_of(kept@) =~= target);
    }
    *edges = kept;
}

/// Whether some watcher of `address`, other than `address` itself, has a
/// full mailbox.
pub(crate) open spec fn watcher_full(slots: Seq<Slot>, edges: Seq<Edge>, address: Seq<u8>) -> bool {
    exists|i: int|
        0 <= i < edges.len() && pair_at(edges, i).1 == address && pair_at(edges, i).0 != address
            && full_in(slots, pair_at(edges, i).0)
}

/// Looks for a watcher of `address`, other than `address` itself, whose
/// mailbox is full.
pub(crate) fn watcher_blocked(slots: &Vec<Slot>, edges: &Vec<Edge>, address: &Address) -> (blocked: bool)
    requires
        distinct_keys(slots@),
    ensures
        blocked == watcher_full(slots@, edges@, address@),
{
    let mut i: usize = 0;
    while i < edges.len()
        invariant
            i <= edges@.len(),
            distinct_keys(slots@),
            forall|j: int|
                0 <= j < i ==> !(pair_at(edges@, j).1 == address@ && pair_at(edges@, j).0
                    != address@ && full_in(slots@, pair_at(edges@, j).0)),
        decreases edges@.len() - i,
    {
        if edges[i].watched == *address && !(edges[i].watcher == *address) && full_at(
            slots,
            &edges[i].watcher,
        ) {
            assert(pair_at(edges@, i as int).1 == address@ && pair_at(edges@, i as int).0
                != address@ && full_in(slots@, pair_at(edges@, i as int).0));
            return true;
        }
        i += 1;
    }
    false
}

/// Puts one removal notice for `address` into the mailbox of each of its
/// watchers that has one.
pub(crate) fn notify_watchers(slots: &mut Vec<Slot>, edges: &Vec<Edge>, address: &Address)
    requires
        distinct_keys(old(slots)@),
        distinct_pairs(edges@),
        forall|i: int|
            0 <= i < edges@.len() && pair_at(edges@, i).1 == address@ ==> !full_in(
                old(slots)@,
                pair_at(edges@, i).0,
            ),
    ensures
        distinct_keys(final(slots)@),
        mailboxes_of(final(slots)@) == Map::new(
            |k: Seq<u8>| mailboxes_of(old(slots)@).contains_key(k),
            |k: Seq<u8>|
                if tracking_of(edges@).contains((k, address@)) {
                    mailboxes_of(old(slots)@)[k].with(Notice::AgentRemoved(address@))
                } else {
                    mailboxes_of(old(slots)@)[k]
                },
        ),
{
    let ghost start = slots@;
    let ghost gone = address@;
    let mut i: usize = 0;
    while i < edges.len()
        invariant
            i <= edges@.len(),
            gone == address@,
            distinct_keys(start),
            distinct_keys(slots@),
            distinct_pairs(edges@),
            slots@.len() == start.len(),
            forall|j: int| 0 <= j < start.len() ==> key_at(slots@, j) == key_at(start, j),
            forall|j: int|
                0 <= j < start.len() ==> slots@[j].mailbox@ == if has_pair_before(
                    edges@,
                    i as int,
                    (key_at(start, j), gone),
                ) {
                    start[j].mailbox@.with(Notice::AgentRemoved(gone))
                } else {
                    start[j].mailbox@
                },
            forall|e: int|
                0 <= e < edges@.len() && pair_at(edges@, e).1 == gone ==> !full_in(
                    start,
                    pair_at(edges@, e).0,
                ),
        decreases edges@.len() - i,
    {
        let ghost before = slots@;
        let ghost here = pair_at(edges@, i as int);
        let mut hit: Option<usize> = None;
        if edges[i].watched == *address {
            hit = position(slots, &edges[i].watcher);
        }
        match hit {
            Some(j) => {
                proof {
                    lemma_lookup(start, j as int);
                    assert(!has_pair_before(edges@, i as int, here)) by {
                        if has_pair_before(edges@, i as int, here) {
                            let e = choose|e: int| 0 <= e < i && pair_at(edges@, e) == here;
                            assert(pair_at(edges@, e) != pair_at(edges@, i as int));
                        }
                    }
                    assert(!full_in(start, here.0));
                }
                let _ = slots[j].mailbox.push(AgentMsg::AgentRemoved(address.clone()));
                proof {
                    lemma_update(before, slots@, j as int);
                    assert forall|k: int| 0 <= k < start.len() implies slots@[k].mailbox@
                        == if has_pair_before(edges@, i + 1, (key_at(start, k), gone)) {
                        start[k].mailbox@.with(Notice::AgentRemoved(gone))
                    } else {
                        start[k].mailbox@
                    } by {
                        lemma_pair_step(edges@, i as int, (key_at(start, k), gone));
                        if k != j {
                            if k < j {
                                assert(key_at(start, k) != key_at(start, j as int));
                            } else {
                                assert(key_at(start, j as int) != key_at(start, k));
                            }
                        }
                    }
                }
            },
            None => {
                proof {
                    assert forall|k: int| 0 <= k < start.len() implies slots@[k].mailbox@
                        == if has_pair_before(edges@, i + 1, (key_at(start, k), gone)) {
                        start[k].mailbox@.with(Notice::AgentRemoved(gone))
                    } else {
                        start[k].mailbox@
                    } by {
                        lemma_pair_step(edges@, i as int, (key_at(start, k), gone));
                        if here.1 == gone {
                            assert(key_at(slots@, k) != here.0) by {
                                assert(key_at(slots@, k) == key_at(start, k));
                            }
                        }
                    }
                }
            },
        }
        i += 1;
    }
    proof {
        let after = slots@;
        let target = Map::new(
            |k: Seq<u8>| mailboxes_of(start).contains_key(k),
            |k: Seq<u8>|
                if tracking_of(edges@).contains((k, gone)) {
                    mailboxes_of(start)[k].with(Notice::AgentRemoved(gone))
                } else {
                    mailboxes_of(start)[k]
                },
        );
        assert forall|k: Seq<u8>| mailboxes_of(after).contains_key(k) <==> target.contains_key(
            k,
        ) by {
            if has_key(after, k) {
                let j = index_of(after, k);
                assert(key_at(start, j) == k);
            }
            if has_key(start, k) {
                let j = index_of(start, k);
                assert(key_at(after, j) == k);
            }
        }
        assert forall|k: Seq<u8>| mailboxes_of(after).contains_key(k) implies mailboxes_of(
            after,
        )[k] == target[k] by {
            let j = index_of(after, k);
            lemma_lookup(after, j);
            assert(key_at(start, j) == k);
            lemma_lookup(start, j);
        }
        assert(mailboxes_of(after) =~= target);
    }
}

} // verus!
