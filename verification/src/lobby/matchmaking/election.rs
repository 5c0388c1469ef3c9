//! Which lobbies a search draws from, and which one of them hosts.

use super::store::{is_reachable_host, SessionStore, StoredSession, StoredView};
use crate::peer::{same_addr, IpAddr};
use crate::sequences::lemma_filter_push;
use vstd::prelude::*;

verus! {

/// Whether two playlists may meet: they are the same, or one is not known.
pub open spec fn compatible(wanted: Option<i32>, offered: Option<i32>) -> bool {
    match (wanted, offered) {
        (Some(a), Some(b)) => a == b,
        _ => true,
    }
}

/// The lobbies that a search for a playlist draws from.
pub open spec fn pool_of(sessions: Seq<StoredView>, wanted: Option<i32>) -> Seq<StoredView> {
    sessions.filter(|s: StoredView| compatible(wanted, s.playlist))
}

/// Whether one optional address comes before another; none comes first.
pub open spec fn owner_before(a: Option<IpAddr>, b: Option<IpAddr>) -> bool {
    match (a, b) {
        (None, Some(_)) => true,
        (Some(x), Some(y)) => x.precedes(y),
        _ => false,
    }
}

/// Whether `a` makes a better host than `b`: a lobby with players beats an empty
/// one, then a host that can be reached beats one that cannot, then the lower
/// address decides.
pub open spec fn better_host(a: StoredView, b: StoredView) -> bool {
    if a.has_players != b.has_players {
        a.has_players
    } else if a.reachable() != b.reachable() {
        a.reachable()
    } else {
        owner_before(a.owner, b.owner)
    }
}

/// Whether the `i`-th lobby is the best host, and the first one as good.
pub open spec fn best_at(pool: Seq<StoredView>, i: int) -> bool {
    &&& 0 <= i < pool.len()
    &&& forall|k: int| 0 <= k < pool.len() ==> !better_host(#[trigger] pool[k], pool[i])
    &&& forall|k: int| 0 <= k < i ==> better_host(pool[i], #[trigger] pool[k])
}

/// The host that a pool of lobbies elects.
pub open spec fn elected_of(pool: Seq<StoredView>) -> Option<StoredView> {
    if exists|i: int| best_at(pool, i) {
        Some(pool[choose|i: int| best_at(pool, i)])
    } else {
        None
    }
}

/// The lobbies at the given places.
pub open spec fn at_places(sessions: Seq<StoredView>, places: Seq<usize>) -> Seq<StoredView> {
    places.map_values(|i: usize| sessions[i as int])
}

/// Whether every place is one of a lobby.
pub open spec fn in_range(sessions: Seq<StoredView>, places: Seq<usize>) -> bool {
    forall|k: int| 0 <= k < places.len() ==> #[trigger] places[k] < sessions.len()
}

/// The places of the lobbies that a search draws from.
pub fn pool(store: &SessionStore, wanted: Option<i32>) -> (places: Vec<usize>)
    ensures
        in_range(store@, places@),
        at_places(store@, places@) == pool_of(store@, wanted),
{
    let ghost pred = |s: StoredView| compatible(wanted, s.playlist);
    let mut places: Vec<usize> = Vec::new();
    let mut i: usize = 0;
    proof {
        reveal(Seq::filter);
        assert(store@.take(0).filter(pred) =~= Seq::<StoredView>::empty());
    }
    while i < store.len()
        invariant
            i <= store@.len(),
            pred == (|s: StoredView| compatible(wanted, s.playlist)),
            in_range(store@, places@),
            at_places(store@, places@) =~= store@.take(i as int).filter(pred),
        decreases store@.len() - i,
    {
        proof {
            assert(store@.take(i as int).push(store@[i as int]) =~= store@.take(i + 1));
            lemma_filter_push(store@.take(i as int), store@[i as int], pred);
        }
        let fits: bool = match (wanted, store.get(i).playlist) {
            (Some(a), Some(b)) => a == b,
            _ => true,
        };
        if fits {
            let ghost before = places@;
            places.push(i);
            proof {
                assert(at_places(store@, places@) =~= at_places(store@, before).push(
                    store@[i as int],
                ));
            }
        }
        i = i + 1;
    }
    proof {
        assert(store@.take(i as int) =~= store@);
    }
    places
}

/// Those of the given places whose lobby does not belong to `peer`.
pub fn others(store: &SessionStore, places: &Vec<usize>, peer: Option<IpAddr>) -> (rest: Vec<usize>)
    requires
        in_range(store@, places@),
    ensures
        in_range(store@, rest@),
        at_places(store@, rest@) == at_places(store@, places@).filter(
            |s: StoredView| !s.owned_by(peer),
        ),
{
    let ghost pred = |s: StoredView| !s.owned_by(peer);
    let ghost all = at_places(store@, places@);
    let mut rest: Vec<usize> = Vec::new();
    let mut i: usize = 0;
    proof {
        reveal(Seq::filter);
        assert(all.take(0).filter(pred) =~= Seq::<StoredView>::empty());
    }
    while i < places.len()
        invariant
            i <= places@.len(),
            all == at_places(store@, places@),
            pred == (|s: StoredView| !s.owned_by(peer)),
            in_range(store@, places@),
            in_range(store@, rest@),
            at_places(store@, rest@) =~= all.take(i as int).filter(pred),
        decreases places@.len() - i,
    {
        proof {
            assert(all.take(i as int).push(all[i as int]) =~= all.take(i + 1));
            lemma_filter_push(all.take(i as int), all[i as int], pred);
        }
        let place: usize = places[i];
        if !(peer.is_some() && same_addr(store.get(place).owner, peer)) {
            let ghost before = rest@;
            rest.push(place);
            proof {
                assert(at_places(store@, rest@) =~= at_places(store@, before).push(all[i as int]));
            }
        }
        i = i + 1;
    }
    proof {
        assert(all.take(i as int) =~= all);
    }
    rest
}

/// Whether one optional address comes before another.
fn is_owner_before(a: Option<IpAddr>, b: Option<IpAddr>) -> (r: bool)
    ensures
        r == owner_before(a, b),
{
    match (a, b) {
        (None, Some(_)) => true,
        (Some(x), Some(y)) => x.is_before(&y),
        _ => false,
    }
}

/// Whether `a` makes a better host than `b`.
pub fn is_better_host(a: &StoredSession, b: &StoredSession) -> (r: bool)
    ensures
        r == better_host(a@, b@),
{
    let a_reachable: bool = is_reachable_host(&a.info);
    let b_reachable: bool = is_reachable_host(&b.info);
    if a.has_players != b.has_players {
        a.has_players
    } else if a_reachable != b_reachable {
        a_reachable
    } else {
        is_owner_before(a.owner, b.owner)
    }
}

/// Elects the host among the lobbies at the given places.
pub fn elect(store: &SessionStore, places: &Vec<usize>) -> (host: Option<usize>)
    requires
        in_range(store@, places@),
    ensures
        match host {
            Some(i) => i < store@.len() && elected_of(at_places(store@, places@)) == Some(
                store@[i as int],
            ),
            None => elected_of(at_places(store@, places@)) is None,
        },
{
    let ghost all = at_places(store@, places@);
    if places.len() == 0 {
        return None;
    }
    let mut best: usize = 0;
    let mut i: usize = 1;
    while i < places.len()
        invariant
            1 <= i <= places@.len(),
            best < i,
            all == at_places(store@, places@),
            in_range(store@, places@),
            best_at(all.take(i as int), best as int),
        decreases places@.len() - i,
    {
        let ghost seen = all.take(i as int);
        let ghost next = all.take(i + 1);
        proof {
            assert(places@[i as int] < store@.len());
            assert(places@[best as int] < store@.len());
            assert(seen[best as int] == store@[places@[best as int] as int]);
            assert(next[i as int] == store@[places@[i as int] as int]);
            assert(forall|k: int| 0 <= k < i ==> next[k] == #[trigger] seen[k]);
        }
        let better: bool = is_better_host(store.get(places[i]), store.get(places[best]));
        if better {
            proof {
                assert forall|k: int| 0 <= k < next.len() implies !better_host(
                    #[trigger] next[k],
                    next[i as int],
                ) by {
                    lemma_order(next[i as int], next[best as int], next[k]);
                    if k < i {
                        assert(!better_host(seen[k], seen[best as int]));
                    }
                }
                assert forall|k: int| 0 <= k < i implies better_host(
                    next[i as int],
                    #[trigger] next[k],
                ) by {
                    lemma_order(next[i as int], next[best as int], next[k]);
                    assert(!better_host(seen[k], seen[best as int]));
                }
            }
            best = i;
        } else {
            proof {
                assert forall|k: int| 0 <= k < next.len() implies !better_host(
                    #[trigger] next[k],
                    next[best as int],
                ) by {
                    if k < i {
                        assert(!better_host(seen[k], seen[best as int]));
                    }
                }
                assert forall|k: int| 0 <= k < best implies better_host(
                    next[best as int],
                    #[trigger] next[k],
                ) by {
                    assert(better_host(seen[best as int], seen[k]));
                }
            }
        }
        i = i + 1;
    }
    proof {
        assert(all.take(i as int) =~= all);
        lemma_best_is_elected(all, best as int);
        assert(places@[best as int] < store@.len());
    }
    Some(places[best])
}

/// Hosts are weakly ordered: better than a host that nothing beats is better than
/// all, and nothing is better than itself.
proof fn lemma_order(a: StoredView, b: StoredView, c: StoredView)
    ensures
        better_host(a, b) && !better_host(c, b) ==> better_host(a, c),
        better_host(a, b) ==> !better_host(b, a),
        !better_host(a, a),
{
}

/// There is at most one best host.
pub proof fn lemma_best_is_elected(pool: Seq<StoredView>, i: int)
    requires
        best_at(pool, i),
    ensures
        elected_of(pool) == Some(pool[i]),
{
    let c = choose|c: int| best_at(pool, c);
    assert(c == i) by {
        if c < i {
            assert(better_host(pool[i], pool[c]));
            assert(!better_host(pool[i], pool[c]));
        }
        if i < c {
            assert(better_host(pool[c], pool[i]));
            assert(!better_host(pool[c], pool[i]));
        }
    }
}

} // verus!
