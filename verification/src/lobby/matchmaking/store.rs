//! The lobbies that are currently announced.

use super::common_addr::{advertised_public_port, public_port};
use super::info::{InfoView, SessionInfo};
use crate::clock::{elapsed, time_between};
use crate::peer::{same_addr, IpAddr};
use crate::sequences::lemma_filter_push;
use vstd::prelude::*;

verus! {

/// How long a lobby lives without any traffic from its host, in nanoseconds.
/// Consoles announce themselves again only every couple of minutes.
pub const SESSION_TTL: u64 = 240_000_000_000;

/// The ports that a console's network layer can be bound to: the stock one, and
/// the one for shared version 4 addresses.
pub const BDNET_BIND_PORTS: [u16; 2] = [3074, 30000];

/// A lobby in the store. Times are nanoseconds on a clock that does not run
/// backwards.
#[derive(Debug)]
pub struct StoredSession {
    pub id: u64,
    pub owner: Option<IpAddr>,
    pub info: SessionInfo,
    pub updated: u64,
    /// The playlist of the lobby, where it is known.
    pub playlist: Option<i32>,
    /// Whether somebody has joined the lobby.
    pub has_players: bool,
}

/// A [`StoredSession`] as a mathematical value.
pub ghost struct StoredView {
    pub id: u64,
    pub owner: Option<IpAddr>,
    pub info: InfoView,
    pub updated: u64,
    pub playlist: Option<i32>,
    pub has_players: bool,
}

impl View for StoredSession {
    type V = StoredView;

    open spec fn view(&self) -> StoredView {
        StoredView {
            id: self.id,
            owner: self.owner,
            info: self.info@,
            updated: self.updated,
            playlist: self.playlist,
            has_players: self.has_players,
        }
    }
}

impl StoredView {
    /// Whether the host has been heard of recently enough.
    pub open spec fn alive(self, now: u64) -> bool {
        elapsed(self.updated, now) < SESSION_TTL
    }

    /// Whether the lobby belongs to a known address.
    pub open spec fn owned_by(self, peer: Option<IpAddr>) -> bool {
        peer is Some && self.owner == peer
    }

    /// Whether the host can be reached directly: its public port is one that a
    /// console binds, so no address translation has moved it.
    pub open spec fn reachable(self) -> bool {
        public_port(self.info.common_addr) matches Some(p) && BDNET_BIND_PORTS@.contains(p)
    }
}

/// The announced lobbies, in the order of their announcement.
pub struct SessionStore {
    sessions: Vec<StoredSession>,
}

impl View for SessionStore {
    type V = Seq<StoredView>;

    closed spec fn view(&self) -> Seq<StoredView> {
        self.sessions@.map_values(|s: StoredSession| s@)
    }
}

/// Whether lobbies are told apart by their ids, and each known address has at
/// most one.
pub open spec fn consistent(sessions: Seq<StoredView>) -> bool {
    &&& forall|i: int, j: int|
        0 <= i < sessions.len() && 0 <= j < sessions.len() && (#[trigger] sessions[i]).id == (
        #[trigger] sessions[j]).id ==> i == j
    &&& forall|i: int, j: int|
        0 <= i < sessions.len() && 0 <= j < sessions.len() && (#[trigger] sessions[i]).owner
            is Some && sessions[i].owner == (#[trigger] sessions[j]).owner ==> i == j
}

/// The lobbies that are still alive.
pub open spec fn living(sessions: Seq<StoredView>, now: u64) -> Seq<StoredView> {
    sessions.filter(|s: StoredView| s.alive(now))
}

/// The lobbies, those of `peer` marked as heard of now.
pub open spec fn touched(sessions: Seq<StoredView>, peer: Option<IpAddr>, now: u64) -> Seq<
    StoredView,
> {
    sessions.map_values(
        |s: StoredView|
            if s.owned_by(peer) {
                StoredView { updated: now, ..s }
            } else {
                s
            },
    )
}

/// The lobbies that do not belong to `peer`; all of them if it is unknown.
pub open spec fn without_owner(sessions: Seq<StoredView>, peer: Option<IpAddr>) -> Seq<StoredView> {
    sessions.filter(|s: StoredView| !s.owned_by(peer))
}

/// The lobbies without the one that has this id.
pub open spec fn without_id(sessions: Seq<StoredView>, id: u64) -> Seq<StoredView> {
    sessions.filter(|s: StoredView| s.id != id)
}

/// Whether the `i`-th lobby is the first that belongs to `peer`.
pub open spec fn first_owned(sessions: Seq<StoredView>, peer: Option<IpAddr>, i: int) -> bool {
    &&& 0 <= i < sessions.len()
    &&& sessions[i].owned_by(peer)
    &&& forall|k: int| 0 <= k < i ==> !(#[trigger] sessions[k]).owned_by(peer)
}

/// The first lobby of `peer`.
pub open spec fn own_session(sessions: Seq<StoredView>, peer: Option<IpAddr>) -> Option<StoredView> {
    if exists|i: int| first_owned(sessions, peer, i) {
        Some(sessions[choose|i: int| first_owned(sessions, peer, i)])
    } else {
        None
    }
}

/// Whether a lobby of `peer` has players in it.
pub open spec fn in_game(sessions: Seq<StoredView>, peer: Option<IpAddr>) -> bool {
    exists|k: int|
        0 <= k < sessions.len() && (#[trigger] sessions[k]).owned_by(peer)
            && sessions[k].has_players
}

impl SessionStore {
    /// An empty store.
    pub fn new() -> (store: SessionStore)
        ensures
            store@ == Seq::<StoredView>::empty(),
    {
        let store = SessionStore { sessions: Vec::new() };
        proof {
            assert(store@ =~= Seq::<StoredView>::empty());
        }
        store
    }

    /// How many lobbies there are.
    pub fn len(&self) -> (n: usize)
        ensures
            n == self@.len(),
    {
        self.sessions.len()
    }

    /// The `i`-th lobby.
    pub fn get(&self, i: usize) -> (s: &StoredSession)
        requires
            i < self@.len(),
        ensures
            s@ == self@[i as int],
    {
        &self.sessions[i]
    }

    /// Keeps the lobbies that are marked.
    fn retain(&mut self, marks: &Vec<bool>, Ghost(pred): Ghost<spec_fn(StoredView) -> bool>)
        requires
            marks@.len() == old(self)@.len(),
            forall|k: int| 0 <= k < marks@.len() ==> marks@[k] == pred(#[trigger] old(self)@[k]),
        ensures
            final(self)@ == old(self)@.filter(pred),
    {
        let ghost all = self@;
        let mut seen: usize = 0;
        let mut i: usize = 0;
        proof {
            reveal(Seq::filter);
            assert(all.take(0).filter(pred) =~= Seq::<StoredView>::empty());
            assert(self@ =~= all.take(0).filter(pred) + all.skip(0));
        }
        while seen < marks.len()
            invariant
                seen <= all.len(),
                marks@.len() == all.len(),
                forall|k: int| 0 <= k < marks@.len() ==> marks@[k] == pred(#[trigger] all[k]),
                i == all.take(seen as int).filter(pred).len(),
                self@ == all.take(seen as int).filter(pred) + all.skip(seen as int),
                self@.len() == self.sessions@.len(),
            decreases all.len() - seen,
        {
            let ghost kept = all.take(seen as int).filter(pred);
            proof {
                assert(all.take(seen as int).push(all[seen as int]) =~= all.take(seen + 1));
                lemma_filter_push(all.take(seen as int), all[seen as int], pred);
            }
            if marks[seen] {
                proof {
                    assert(self@ =~= kept.push(all[seen as int]) + all.skip(seen + 1));
                }
                i = i + 1;
            } else {
                let ghost before = self@;
                self.sessions.remove(i);
                proof {
                    assert(self@ =~= before.remove(i as int));
                    assert(self@ =~= kept + all.skip(seen + 1));
                }
            }
            seen = seen + 1;
        }
        proof {
            assert(all.take(seen as int) =~= all);
            assert(all.take(seen as int).filter(pred) + all.skip(seen as int) =~= all.filter(pred));
        }
    }

    /// Drops the lobbies that have not been heard of for too long.
    pub fn expire(&mut self, now: u64)
        ensures
            final(self)@ == living(old(self)@, now),
    {
        let mut marks: Vec<bool> = Vec::new();
        let mut i: usize = 0;
        while i < self.sessions.len()
            invariant
                i <= self.sessions@.len(),
                self@.len() == self.sessions@.len(),
                marks@.len() == i,
                forall|k: int| 0 <= k < i ==> marks@[k] == (#[trigger] self@[k]).alive(now),
            decreases self.sessions@.len() - i,
        {
            let updated: u64 = self.sessions[i].updated;
            proof {
                assert(self@[i as int].updated == updated);
            }
            marks.push(time_between(updated, now) < SESSION_TTL);
            i = i + 1;
        }
        self.retain(&marks, Ghost(|s: StoredView| s.alive(now)));
    }

    /// Drops the lobbies of `peer`, if it is known.
    pub fn drop_owner(&mut self, peer: Option<IpAddr>)
        ensures
            final(self)@ == without_owner(old(self)@, peer),
    {
        let mut marks: Vec<bool> = Vec::new();
        let mut i: usize = 0;
        while i < self.sessions.len()
            invariant
                i <= self.sessions@.len(),
                self@.len() == self.sessions@.len(),
                marks@.len() == i,
                forall|k: int| 0 <= k < i ==> marks@[k] == !(#[trigger] self@[k]).owned_by(peer),
            decreases self.sessions@.len() - i,
        {
            marks.push(!(peer.is_some() && same_addr(self.sessions[i].owner, peer)));
            i = i + 1;
        }
        self.retain(&marks, Ghost(|s: StoredView| !s.owned_by(peer)));
    }

    /// Drops the lobby with this id, if there is one.
    pub fn remove(&mut self, id: u64)
        ensures
            final(self)@ == without_id(old(self)@, id),
    {
        let mut marks: Vec<bool> = Vec::new();
        let mut i: usize = 0;
        while i < self.sessions.len()
            invariant
                i <= self.sessions@.len(),
                self@.len() == self.sessions@.len(),
                marks@.len() == i,
                forall|k: int| 0 <= k < i ==> marks@[k] == ((#[trigger] self@[k]).id != id),
            decreases self.sessions@.len() - i,
        {
            marks.push(self.sessions[i].id != id);
            i = i + 1;
        }
        self.retain(&marks, Ghost(|s: StoredView| s.id != id));
    }

    /// Adds a lobby behind the others.
    pub fn push(&mut self, session: StoredSession)
        ensures
            final(self)@ == old(self)@.push(session@),
    {
        self.sessions.push(session);
        proof {
            assert(self@ =~= old(self)@.push(session@));
        }
    }

    /// Puts a lobby in the place of the `i`-th one.
    pub fn replace(&mut self, i: usize, session: StoredSession)
        requires
            i < old(self)@.len(),
        ensures
            final(self)@ == old(self)@.update(i as int, session@),
    {
        self.sessions.set(i, session);
        proof {
            assert(self@ =~= old(self)@.update(i as int, session@));
        }
    }

    /// The place of the lobby with this id.
    pub fn find(&self, id: u64) -> (r: Option<usize>)
        ensures
            match r {
                Some(i) => i < self@.len() && self@[i as int].id == id && forall|k: int|
                    0 <= k < i ==> (#[trigger] self@[k]).id != id,
                None => forall|k: int| 0 <= k < self@.len() ==> (#[trigger] self@[k]).id != id,
            },
    {
        let mut i: usize = 0;
        while i < self.sessions.len()
            invariant
                i <= self.sessions@.len(),
                self@.len() == self.sessions@.len(),
                forall|k: int| 0 <= k < i ==> (#[trigger] self@[k]).id != id,
            decreases self.sessions@.len() - i,
        {
            if self.sessions[i].id == id {
                return Some(i);
            }
            i = i + 1;
        }
        None
    }

    /// The place of the first lobby of `peer`.
    pub fn find_owned(&self, peer: Option<IpAddr>) -> (r: Option<usize>)
        ensures
            match r {
                Some(i) => first_owned(self@, peer, i as int),
                None => forall|k: int| 0 <= k < self@.len() ==> !(#[trigger] self@[k]).owned_by(
                    peer,
                ),
            },
    {
        let mut i: usize = 0;
        while i < self.sessions.len()
            invariant
                i <= self.sessions@.len(),
                self@.len() == self.sessions@.len(),
                forall|k: int| 0 <= k < i ==> !(#[trigger] self@[k]).owned_by(peer),
            decreases self.sessions@.len() - i,
        {
            if peer.is_some() && same_addr(self.sessions[i].owner, peer) {
                return Some(i);
            }
            i = i + 1;
        }
        None
    }

    /// Whether a lobby of `peer` has players in it.
    pub fn has_players(&self, peer: Option<IpAddr>) -> (r: bool)
        ensures
            r == in_game(self@, peer),
    {
        let mut i: usize = 0;
        while i < self.sessions.len()
            invariant
                i <= self.sessions@.len(),
                self@.len() == self.sessions@.len(),
                forall|k: int|
                    0 <= k < i ==> !((#[trigger] self@[k]).owned_by(peer) && self@[k].has_players),
            decreases self.sessions@.len() - i,
        {
            if peer.is_some() && same_addr(self.sessions[i].owner, peer)
                && self.sessions[i].has_players {
                proof {
                    assert(self@[i as int].owned_by(peer) && self@[i as int].has_players);
                }
                return true;
            }
            i = i + 1;
        }
        false
    }

    /// Marks the lobbies of `peer` as heard of now.
    pub fn touch(&mut self, peer: Option<IpAddr>, now: u64)
        ensures
            final(self)@ == touched(old(self)@, peer, now),
    {
        let ghost all = self@;
        let mut i: usize = 0;
        while i < self.sessions.len()
            invariant
                i <= self.sessions@.len(),
                self@.len() == all.len() == self.sessions@.len(),
                forall|k: int| 0 <= k < i ==> self@[k] == touched(all, peer, now)[k],
                forall|k: int| i <= k < all.len() ==> self@[k] == all[k],
            decreases self.sessions@.len() - i,
        {
            let ghost before = self@;
            if peer.is_some() && same_addr(self.sessions[i].owner, peer) {
                self.sessions[i].updated = now;
            }
            proof {
                assert(self@ =~= before.update(i as int, touched(all, peer, now)[i as int]));
            }
            i = i + 1;
        }
        proof {
            assert(self@ =~= touched(all, peer, now));
        }
    }
}

/// Whether a host can be reached directly.
pub fn is_reachable_host(info: &SessionInfo) -> (r: bool)
    ensures
        r == (public_port(info@.common_addr) matches Some(p) && BDNET_BIND_PORTS@.contains(p)),
{
    match advertised_public_port(info.common_addr.as_slice()) {
        Some(p) => {
            proof {
                assert(BDNET_BIND_PORTS@[0] == 3074);
                assert(BDNET_BIND_PORTS@[1] == 30000);
            }
            p == BDNET_BIND_PORTS[0] || p == BDNET_BIND_PORTS[1]
        },
        None => false,
    }
}

} // verus!
