//! What holds of matchmaking as a whole.

use super::config::{listed, sink_of, MatchmakingConfig};
use super::election::{
    best_at, better_host, compatible, elected_of, lemma_best_is_elected, pool_of,
};
use super::handler::{
    answer, ip_of, lemma_own_session, outcome, row_of, MatchmakingTaskId, ResultView, StateView,
};
use super::info::{info_in, session_id_in, InfoView, RowView};
use super::query::query_playlist;
use super::store::{
    first_owned, in_game, living, own_session, without_owner, StoredView, SESSION_TTL,
};
use crate::clock::elapsed;
use crate::peer::{IpAddr, Peer};
use crate::sequences::lemma_filter_members;
use crate::wire::Val;
use vstd::prelude::*;

verus! {

/// If an address has a lobby, it has a first one.
proof fn lemma_has_first(sessions: Seq<StoredView>, peer: Option<IpAddr>, n: int)
    requires
        0 <= n < sessions.len(),
        sessions[n].owned_by(peer),
    ensures
        exists|i: int| first_owned(sessions, peer, i),
    decreases n,
{
    if forall|k: int| 0 <= k < n ==> !(#[trigger] sessions[k]).owned_by(peer) {
        assert(first_owned(sessions, peer, n));
    } else {
        let k = choose|k: int| 0 <= k < n && (#[trigger] sessions[k]).owned_by(peer);
        lemma_has_first(sessions, peer, k);
    }
}

/// Nobody is shown a lobby of their own.
pub proof fn law_never_own_lobby(
    state: StateView,
    peer: Option<IpAddr>,
    wanted: Option<i32>,
    asymmetric: bool,
)
    ensures
        forall|i: int|
            0 <= i < state.shown(peer, wanted, asymmetric).len() ==> !(#[trigger] state.shown(
                peer,
                wanted,
                asymmetric,
            )[i]).owned_by(peer),
{
    let playlist = state.search_playlist(peer, wanted);
    let pool = pool_of(state.sessions, playlist);
    lemma_filter_members(pool, |s: StoredView| !s.owned_by(peer));
    lemma_filter_members(state.sessions, |s: StoredView| compatible(playlist, s.playlist));
    if let Some(host) = state.search_host(peer, wanted, asymmetric) {
        if host.owned_by(peer) {
            let i = choose|i: int| best_at(pool, i);
            assert(pool[i] == host);
            let k = choose|k: int| 0 <= k < state.sessions.len() && state.sessions[k] == pool[i];
            lemma_has_first(state.sessions, peer, k);
            let c = choose|c: int| first_owned(state.sessions, peer, c);
            lemma_own_session(state.sessions, peer);
            assert(own_session(state.sessions, peer) == Some(state.sessions[c]));
        }
    }
}

/// Consoles find each other: an announced lobby is shown to everybody else who
/// searches for its playlist, or for no particular one, before it expires.
pub proof fn law_announced_is_found(
    state: StateView,
    host: Option<IpAddr>,
    announced_at: u64,
    info: InfoView,
    guest: Option<IpAddr>,
    searched_at: u64,
    wanted: Option<i32>,
)
    requires
        guest is None || guest != host,
        elapsed(announced_at, searched_at) < SESSION_TTL,
        compatible(
            state.with_announced(host, announced_at, info).refreshed(
                guest,
                searched_at,
            ).with_searched(guest, wanted).search_playlist(guest, wanted),
            state.announced(host, announced_at, info).playlist,
        ),
    ensures
        state.with_announced(host, announced_at, info).refreshed(guest, searched_at).with_searched(
            guest,
            wanted,
        ).shown(guest, wanted, false).contains(state.announced(host, announced_at, info)),
{
    let lobby = state.announced(host, announced_at, info);
    let s1 = state.with_announced(host, announced_at, info);
    let s2 = s1.refreshed(guest, searched_at).with_searched(guest, wanted);
    let playlist = s2.search_playlist(guest, wanted);
    assert(s1.sessions.last() == lobby);
    let n = s1.sessions.len() - 1;
    assert(s1.sessions[n] == lobby);

    let alive = |s: StoredView| s.alive(searched_at);
    lemma_filter_members(s1.sessions, alive);
    assert(alive(s1.sessions[n]));
    let left = living(s1.sessions, searched_at);
    let i = choose|i: int| 0 <= i < left.len() && left[i] == lobby;
    assert(s2.sessions[i] == lobby);

    let fits = |s: StoredView| compatible(playlist, s.playlist);
    lemma_filter_members(s2.sessions, fits);
    assert(fits(s2.sessions[i]));
    let pool = pool_of(s2.sessions, playlist);
    let j = choose|j: int| 0 <= j < pool.len() && pool[j] == lobby;

    let foreign = |s: StoredView| !s.owned_by(guest);
    lemma_filter_members(pool, foreign);
    assert(foreign(pool[j]));
}

/// Only lobbies that were heard of recently survive any request, whoever makes
/// it, and with it only those can be shown.
pub proof fn law_expired_are_gone(state: StateView, peer: Option<IpAddr>, now: u64)
    ensures
        forall|i: int|
            0 <= i < state.refreshed(peer, now).sessions.len() ==> (#[trigger] state.refreshed(
                peer,
                now,
            ).sessions[i]).alive(now),
{
    lemma_filter_members(state.sessions, |s: StoredView| s.alive(now));
    let left = living(state.sessions, now);
    assert forall|i: int| 0 <= i < state.refreshed(peer, now).sessions.len() implies (
    #[trigger] state.refreshed(peer, now).sessions[i]).alive(now) by {
        assert(left[i].alive(now));
    }
}

/// Everything that is shown is a lobby that the service holds, of a playlist that
/// the search does not exclude.
pub proof fn law_shown_are_held(
    state: StateView,
    peer: Option<IpAddr>,
    wanted: Option<i32>,
    asymmetric: bool,
)
    ensures
        forall|i: int|
            0 <= i < state.shown(peer, wanted, asymmetric).len() ==> state.sessions.contains(
                #[trigger] state.shown(peer, wanted, asymmetric)[i],
            ) && compatible(
                state.search_playlist(peer, wanted),
                state.shown(peer, wanted, asymmetric)[i].playlist,
            ),
{
    let playlist = state.search_playlist(peer, wanted);
    let pool = pool_of(state.sessions, playlist);
    let fits = |s: StoredView| compatible(playlist, s.playlist);
    lemma_filter_members(state.sessions, fits);
    lemma_filter_members(pool, |s: StoredView| !s.owned_by(peer));
    let shown = state.shown(peer, wanted, asymmetric);
    assert forall|i: int| 0 <= i < shown.len() implies state.sessions.contains(#[trigger] shown[i])
        && compatible(playlist, shown[i].playlist) by {
        assert(pool.contains(shown[i])) by {
            if state.search_host(peer, wanted, asymmetric) is Some {
                let c = choose|c: int| best_at(pool, c);
                assert(pool[c] == shown[i]);
            }
        }
        let k = choose|k: int| 0 <= k < pool.len() && pool[k] == shown[i];
        assert(fits(pool[k]));
    }
}

/// Any traffic of the owner keeps a lobby alive, with everything that is known of
/// it.
pub proof fn law_owner_traffic_refreshes(state: StateView, peer: Option<IpAddr>, now: u64, i: int)
    requires
        0 <= i < state.sessions.len(),
        state.sessions[i].owned_by(peer),
        state.sessions[i].alive(now),
    ensures
        state.refreshed(peer, now).sessions.contains(
            (StoredView { updated: now, ..state.sessions[i] }),
        ),
{
    let s = state.sessions[i];
    let pred = |s: StoredView| s.alive(now);
    lemma_filter_members(state.sessions, pred);
    assert(pred(state.sessions[i]));
    let left = living(state.sessions, now);
    let k = choose|k: int| 0 <= k < left.len() && left[k] == s;
    assert(state.refreshed(peer, now).sessions[k] == (StoredView { updated: now, ..s }));
}

/// Announcing again replaces the earlier lobby: of a known address there is one,
/// the new one.
pub proof fn law_reannounce_replaces(
    state: StateView,
    peer: Option<IpAddr>,
    now: u64,
    info: InfoView,
)
    requires
        peer is Some,
    ensures
        forall|i: int|
            0 <= i < state.with_announced(peer, now, info).sessions.len()
                && (#[trigger] state.with_announced(peer, now, info).sessions[i]).owned_by(peer)
                ==> state.with_announced(peer, now, info).sessions[i] == state.announced(
                peer,
                now,
                info,
            ),
        own_session(state.with_announced(peer, now, info).sessions, peer) == Some(
            state.announced(peer, now, info),
        ),
{
    let next = state.with_announced(peer, now, info).sessions;
    let kept = without_owner(state.sessions, peer);
    lemma_filter_members(state.sessions, |s: StoredView| !s.owned_by(peer));
    assert forall|i: int| 0 <= i < next.len() && (#[trigger] next[i]).owned_by(
        peer,
    ) implies next[i] == state.announced(peer, now, info) by {
        if i < kept.len() {
            assert(next[i] == kept[i]);
        }
    }
    let n = next.len() - 1;
    assert(next[n] == state.announced(peer, now, info));
    lemma_has_first(next, peer, n);
    lemma_own_session(next, peer);
    let c = choose|c: int| first_owned(next, peer, c);
    assert(own_session(next, peer) == Some(next[c]));
}

/// Announcing again in the middle of a game does not make the lobby an empty one,
/// and a lobby that is announced for the first time is empty.
pub proof fn law_players_survive_reannounce(
    state: StateView,
    peer: Option<IpAddr>,
    now: u64,
    info: InfoView,
)
    ensures
        state.announced(peer, now, info).has_players == in_game(state.sessions, peer),
        peer is Some ==> in_game(state.with_announced(peer, now, info).sessions, peer) == in_game(
            state.sessions,
            peer,
        ),
{
    if peer is Some {
        law_reannounce_replaces(state, peer, now, info);
        let next = state.with_announced(peer, now, info).sessions;
        let n = next.len() - 1;
        assert(next[n] == state.announced(peer, now, info));
        if in_game(state.sessions, peer) {
            assert(next[n].owned_by(peer) && next[n].has_players);
        }
    }
}

/// The id of an announced lobby is that of no other one, and no later one will
/// have it.
pub proof fn law_fresh_ids(state: StateView, peer: Option<IpAddr>, now: u64, info: InfoView)
    requires
        state.wf(),
        state.next_id < u64::MAX,
    ensures
        forall|i: int|
            0 <= i < state.sessions.len() ==> (#[trigger] state.sessions[i]).id != state.announced(
                peer,
                now,
                info,
            ).id,
        state.announced(peer, now, info).id < state.with_announced(peer, now, info).next_id,
{
}

/// A withdrawn lobby is gone, and no other one is.
pub proof fn law_withdrawn_is_gone(state: StateView, id: u64)
    ensures
        forall|i: int|
            0 <= i < state.with_withdrawn(id).sessions.len() ==> (
            #[trigger] state.with_withdrawn(id).sessions[i]).id != id,
        forall|i: int|
            0 <= i < state.sessions.len() && (#[trigger] state.sessions[i]).id != id
                ==> state.with_withdrawn(id).sessions.contains(state.sessions[i]),
{
    let pred = |s: StoredView| s.id != id;
    lemma_filter_members(state.sessions, pred);
    let out = state.with_withdrawn(id).sessions;
    assert forall|i: int| 0 <= i < out.len() implies (#[trigger] out[i]).id != id by {
        assert(pred(out[i]));
    }
    assert forall|i: int|
        0 <= i < state.sessions.len() && (#[trigger] state.sessions[i]).id != id implies out.contains(
        state.sessions[i],
    ) by {
        assert(pred(state.sessions[i]));
    }
}

/// An update of a lobby that is not there changes nothing.
pub proof fn law_unknown_update_is_ignored(
    state: StateView,
    id: u64,
    now: u64,
    info: Option<InfoView>,
    players: bool,
)
    requires
        forall|i: int| 0 <= i < state.sessions.len() ==> (#[trigger] state.sessions[i]).id != id,
    ensures
        state.with_renewed(id, now, info, players) == state,
{
    assert(state.with_renewed(id, now, info, players).sessions =~= state.sessions);
}

/// A lobby whose roster changed counts as one with players, and no update makes
/// it an empty one again.
pub proof fn law_updates_keep_players(
    state: StateView,
    id: u64,
    now: u64,
    info: Option<InfoView>,
    players: bool,
    i: int,
)
    requires
        0 <= i < state.sessions.len(),
        state.sessions[i].id == id,
    ensures
        state.with_renewed(id, now, info, players).sessions[i].has_players == (
        state.sessions[i].has_players || players),
        state.with_renewed(id, now, info, players).sessions[i].alive(now),
{
}

/// A search changes no lobby, and one that names no playlist changes nothing.
pub proof fn law_search_keeps_lobbies(state: StateView, peer: Option<IpAddr>, wanted: Option<i32>)
    ensures
        state.with_searched(peer, wanted).sessions == state.sessions,
        state.with_searched(peer, None) == state,
{
}

/// Every pool that is not empty has a best host.
proof fn lemma_host_exists(pool: Seq<StoredView>)
    requires
        pool.len() > 0,
    ensures
        exists|i: int| best_at(pool, i),
    decreases pool.len(),
{
    if pool.len() == 1 {
        assert(best_at(pool, 0));
    } else {
        let init = pool.drop_last();
        let n = pool.len() - 1;
        lemma_host_exists(init);
        let b = choose|b: int| best_at(init, b);
        assert(forall|k: int| 0 <= k < n ==> pool[k] == #[trigger] init[k]);
        if better_host(pool[n], pool[b]) {
            assert forall|k: int| 0 <= k < n implies better_host(pool[n], #[trigger] pool[k]) by {
                assert(!better_host(init[k], init[b]));
            }
            assert forall|k: int| 0 <= k < pool.len() implies !better_host(
                #[trigger] pool[k],
                pool[n],
            ) by {
                if k < n {
                    assert(better_host(pool[n], pool[k]));
                }
            }
            assert(best_at(pool, n));
        } else {
            assert forall|k: int| 0 <= k < pool.len() implies !better_host(
                #[trigger] pool[k],
                pool[b],
            ) by {
                if k < n {
                    assert(!better_host(init[k], init[b]));
                }
            }
            assert forall|k: int| 0 <= k < b implies better_host(pool[b], #[trigger] pool[k]) by {
                assert(better_host(init[b], init[k]));
            }
            assert(best_at(pool, b));
        }
    }
}

/// Exactly one host is elected as soon as there is a lobby to choose from, and no
/// lobby makes a better one.
pub proof fn law_one_host_is_elected(pool: Seq<StoredView>)
    ensures
        (elected_of(pool) is Some) == (pool.len() > 0),
        elected_of(pool) matches Some(host) ==> pool.contains(host) && forall|i: int|
            0 <= i < pool.len() ==> !better_host(#[trigger] pool[i], host),
{
    if pool.len() > 0 {
        lemma_host_exists(pool);
        let i = choose|i: int| best_at(pool, i);
        lemma_best_is_elected(pool, i);
    }
}

/// A lobby with players beats every empty one; among lobbies alike in that, a
/// host that can be reached beats every one that cannot; else the lower address
/// decides. Ids and times play no part.
pub proof fn law_election_order(a: StoredView, b: StoredView, id: u64, updated: u64)
    ensures
        a.has_players && !b.has_players ==> better_host(a, b),
        a.has_players == b.has_players && a.reachable() && !b.reachable() ==> better_host(a, b),
        better_host(StoredView { id, updated, ..a }, b) == better_host(a, b),
        better_host(b, StoredView { id, updated, ..a }) == better_host(b, a),
        better_host(a, b) ==> !better_host(b, a),
{
}

/// With an election everybody who searches for the same playlist is pointed at
/// the same host; the host itself is shown nothing, everybody else that one
/// lobby.
pub proof fn law_callers_converge(
    state: StateView,
    a: Option<IpAddr>,
    wanted_by_a: Option<i32>,
    b: Option<IpAddr>,
    wanted_by_b: Option<i32>,
)
    requires
        state.search_playlist(a, wanted_by_a) == state.search_playlist(b, wanted_by_b),
    ensures
        state.search_host(a, wanted_by_a, true) == state.search_host(b, wanted_by_b, true),
        state.search_host(a, wanted_by_a, true) matches Some(host) ==> state.shown(
            a,
            wanted_by_a,
            true,
        ) == (if host.owned_by(a) {
            Seq::<StoredView>::empty()
        } else {
            seq![host]
        }),
{
    let playlist = state.search_playlist(a, wanted_by_a);
    let pool = pool_of(state.sessions, playlist);
    lemma_filter_members(state.sessions, |s: StoredView| compatible(playlist, s.playlist));
    lemma_own_session(state.sessions, a);
    if let Some(host) = state.search_host(a, wanted_by_a, true) {
        if host.owned_by(a) {
            law_never_own_lobby(state, a, wanted_by_a, true);
            let shown = state.shown(a, wanted_by_a, true);
            if shown.len() > 0 {
                assert(shown[0] == host);
            }
            assert(shown =~= Seq::<StoredView>::empty());
        } else if let Some(own) = own_session(state.sessions, a) {
            let c = choose|c: int| first_owned(state.sessions, a, c);
            assert(own == state.sessions[c]);
        }
    }
}

/// Announcing the same lobby again does not change who hosts: the election settles
/// on an address, whatever id its lobby has at the moment.
pub proof fn law_reannounce_keeps_host(
    state: StateView,
    ip: IpAddr,
    now: u64,
    info: InfoView,
    playlist: Option<i32>,
)
    requires
        state.wf(),
        elected_of(pool_of(state.sessions, playlist)) matches Some(host) && host.owner == Some(ip)
            && host.info == info,
        compatible(playlist, state.playlist_of(info, Some(ip))),
    ensures
        elected_of(
            pool_of(state.with_announced(Some(ip), now, info).sessions, playlist),
        ) matches Some(host) && host.owner == Some(ip),
{
    let peer = Some(ip);
    let fits = |s: StoredView| compatible(playlist, s.playlist);
    let old_pool = pool_of(state.sessions, playlist);
    let host = elected_of(old_pool)->Some_0;
    law_one_host_is_elected(old_pool);
    lemma_filter_members(state.sessions, fits);
    let h = choose|h: int| 0 <= h < state.sessions.len() && state.sessions[h] == host;

    let lobby = state.announced(peer, now, info);
    let next = state.with_announced(peer, now, info).sessions;
    let new_pool = pool_of(next, playlist);
    assert(next[next.len() - 1] == lobby);
    assert(fits(next[next.len() - 1]));
    lemma_filter_members(next, fits);
    assert(new_pool.contains(lobby));
    law_one_host_is_elected(new_pool);
    let winner = elected_of(new_pool)->Some_0;
    assert(in_game(state.sessions, peer) == host.has_players) by {
        if in_game(state.sessions, peer) {
            let k = choose|k: int|
                0 <= k < state.sessions.len() && (#[trigger] state.sessions[k]).owned_by(peer)
                    && state.sessions[k].has_players;
            assert(state.sessions[k].owner == state.sessions[h].owner);
        } else if host.has_players {
            assert(state.sessions[h].owned_by(peer) && state.sessions[h].has_players);
        }
    }
    if winner.owner != peer {
        // The winner was there before, and neither it nor the host beats the other.
        let foreign = |s: StoredView| !s.owned_by(peer);
        lemma_filter_members(state.sessions, foreign);
        let w = choose|w: int| 0 <= w < next.len() && next[w] == winner;
        let kept = without_owner(state.sessions, peer);
        assert(w < kept.len());
        assert(kept[w] == winner);
        let o = choose|o: int| 0 <= o < state.sessions.len() && state.sessions[o] == kept[w];
        assert(fits(state.sessions[o]));
        assert(old_pool.contains(winner));
        let wi = choose|wi: int| 0 <= wi < old_pool.len() && old_pool[wi] == winner;
        assert(!better_host(old_pool[wi], host));
        let li = choose|li: int| 0 <= li < new_pool.len() && new_pool[li] == lobby;
        assert(!better_host(new_pool[li], winner));
    }
}

/// A session that is created is found: a client that is allowed to see lobbies and
/// searches for its playlist, or for no particular one, in time, is answered with a
/// row that has the id its host was told and the description its host sent.
pub proof fn law_created_session_is_found(
    state: StateView,
    config: MatchmakingConfig,
    host: Option<Peer>,
    announcement: Seq<Val>,
    announced_at: u64,
    guest: Option<Peer>,
    query: Seq<u8>,
    query_values: Seq<Val>,
    searched_at: u64,
    task: MatchmakingTaskId,
)
    requires
        info_in(announcement) is Some,
        config.reply_with_id,
        !config.asymmetric,
        listed(config.row_allowlist@, guest),
        task is FindSessions || task is FindSessionsPaged,
        guest is None || ip_of(guest) != ip_of(host),
        elapsed(announced_at, searched_at) < SESSION_TTL,
        ({
            let known = state.refreshed(ip_of(host), announced_at);
            let info = info_in(announcement)->Some_0;
            let wanted = query_playlist(query);
            compatible(
                known.with_announced(ip_of(host), announced_at, info).refreshed(
                    ip_of(guest),
                    searched_at,
                ).with_searched(ip_of(guest), wanted).search_playlist(ip_of(guest), wanted),
                known.playlist_of(info, ip_of(host)),
            )
        }),
    ensures
        ({
            let created = Some(MatchmakingTaskId::CreateSession);
            let known = state.refreshed(ip_of(host), announced_at);
            let told = answer(known, config, host, created, Seq::empty(), announcement);
            let after = outcome(
                known,
                ip_of(host),
                announced_at,
                created,
                Seq::empty(),
                announcement,
            );
            let rows = answer(
                after.refreshed(ip_of(guest), searched_at),
                config,
                guest,
                Some(task),
                query,
                query_values,
            );
            &&& told.len() == 1
            &&& told[0] matches ResultView::SessionId(id)
            &&& rows.contains(
                ResultView::Row(
                    RowView {
                        id,
                        info: info_in(announcement)->Some_0,
                        sink: sink_of(config, guest),
                    },
                ),
            )
        }),
{
    let known = state.refreshed(ip_of(host), announced_at);
    let info = info_in(announcement)->Some_0;
    let wanted = query_playlist(query);
    law_announced_is_found(
        known,
        ip_of(host),
        announced_at,
        info,
        ip_of(guest),
        searched_at,
        wanted,
    );
    let lobby = known.announced(ip_of(host), announced_at, info);
    let shown = known.with_announced(ip_of(host), announced_at, info).refreshed(
        ip_of(guest),
        searched_at,
    ).with_searched(ip_of(guest), wanted).shown(ip_of(guest), wanted, false);
    let k = choose|k: int| 0 <= k < shown.len() && shown[k] == lobby;
    let rows = shown.map_values(|s: StoredView| row_of(s, sink_of(config, guest)));
    assert(rows[k] == row_of(lobby, sink_of(config, guest)));
}

/// One request as it reaches the service.
pub ghost struct Request {
    pub ip: Option<IpAddr>,
    pub now: u64,
    pub task: Option<MatchmakingTaskId>,
    pub raw: Seq<u8>,
    pub rest: Seq<Val>,
}

impl Request {
    /// Whether the request registers a lobby.
    pub open spec fn registers(self) -> bool {
        self.task == Some(MatchmakingTaskId::CreateSession) && info_in(self.rest) is Some
    }
}

/// The state after one request.
pub open spec fn handled(state: StateView, request: Request) -> StateView {
    outcome(
        state.refreshed(request.ip, request.now),
        request.ip,
        request.now,
        request.task,
        request.raw,
        request.rest,
    )
}

/// The state after requests, one after the other.
pub open spec fn handled_all(state: StateView, requests: Seq<Request>) -> StateView
    decreases requests.len(),
{
    if requests.len() == 0 {
        state
    } else {
        handled(handled_all(state, requests.drop_last()), requests.last())
    }
}

/// How far requests move the next id.
proof fn lemma_next_id(state: StateView, requests: Seq<Request>)
    requires
        state.next_id + requests.len() <= u64::MAX,
    ensures
        state.next_id <= handled_all(state, requests).next_id <= state.next_id + requests.len(),
    decreases requests.len(),
{
    if requests.len() > 0 {
        lemma_next_id(state, requests.drop_last());
    }
}

/// A registered lobby is stored and answered with its id, or with no results where
/// the service is set to that; its id is the next one.
pub proof fn law_registration_is_answered(
    state: StateView,
    config: MatchmakingConfig,
    peer: Option<Peer>,
    request: Request,
)
    requires
        request.ip == ip_of(peer),
        request.registers(),
        state.next_id < u64::MAX,
    ensures
        answer(
            state.refreshed(request.ip, request.now),
            config,
            peer,
            request.task,
            request.raw,
            request.rest,
        ) == (if config.reply_with_id {
            seq![ResultView::SessionId(state.next_id)]
        } else {
            Seq::<ResultView>::empty()
        }),
        exists|i: int|
            0 <= i < handled(state, request).sessions.len() && (#[trigger] handled(
                state,
                request,
            ).sessions[i]).id == state.next_id && handled(state, request).sessions[i].info
                == info_in(request.rest)->Some_0,
        handled(state, request).next_id == state.next_id + 1,
{
    let out = handled(state, request).sessions;
    assert(out[out.len() - 1].id == state.next_id);
}

/// Ids are never used again: of two registrations the later one has the greater
/// id, whatever is asked of the service in between, withdrawals among it.
pub proof fn law_ids_only_grow(state: StateView, requests: Seq<Request>, i: int, j: int)
    requires
        state.next_id + requests.len() <= u64::MAX,
        0 <= i < j < requests.len(),
        requests[i].registers(),
    ensures
        handled_all(state, requests.take(i)).next_id < handled_all(
            state,
            requests.take(j),
        ).next_id,
{
    lemma_next_id(state, requests.take(i));
    assert(requests.take(i + 1).drop_last() =~= requests.take(i));
    let next = handled_all(state, requests.take(i + 1));
    assert(next == handled(handled_all(state, requests.take(i)), requests[i]));
    assert(next.next_id == handled_all(state, requests.take(i)).next_id + 1);
    lemma_next_id_grows(state, requests, i + 1, j);
}

proof fn lemma_next_id_grows(state: StateView, requests: Seq<Request>, i: int, j: int)
    requires
        state.next_id + requests.len() <= u64::MAX,
        0 <= i <= j <= requests.len(),
    ensures
        handled_all(state, requests.take(i)).next_id <= handled_all(
            state,
            requests.take(j),
        ).next_id,
    decreases j - i,
{
    if i < j {
        lemma_next_id_grows(state, requests, i, j - 1);
        lemma_next_id(state, requests.take(j - 1));
        assert(requests.take(j).drop_last() =~= requests.take(j - 1));
        assert(requests.take(j).last() == requests[j - 1]);
    }
}

/// A registration leaves just one lobby of its owner, the new one; it has players
/// exactly if a lobby of the owner that was still alive had; and every lobby of
/// anybody else that was still alive is as it was.
pub proof fn law_registration_touches_only_its_owner(state: StateView, request: Request)
    requires
        request.ip is Some,
        request.registers(),
    ensures
        ({
            let out = handled(state, request).sessions;
            let info = info_in(request.rest)->Some_0;
            let lobby = StoredView {
                id: state.next_id,
                owner: request.ip,
                info,
                updated: request.now,
                playlist: state.playlist_of(info, request.ip),
                has_players: exists|k: int|
                    0 <= k < state.sessions.len() && (#[trigger] state.sessions[k]).owned_by(
                        request.ip,
                    ) && state.sessions[k].alive(request.now) && state.sessions[k].has_players,
            };
            &&& out.contains(lobby)
            &&& forall|i: int|
                0 <= i < out.len() && (#[trigger] out[i]).owned_by(request.ip) ==> out[i] == lobby
            &&& own_session(out, request.ip) == Some(lobby)
            &&& forall|k: int|
                0 <= k < state.sessions.len() && !(#[trigger] state.sessions[k]).owned_by(
                    request.ip,
                ) && state.sessions[k].alive(request.now) ==> out.contains(state.sessions[k])
            &&& forall|i: int|
                0 <= i < out.len() && !(#[trigger] out[i]).owned_by(request.ip)
                    ==> state.sessions.contains(out[i])
        }),
{
    let ip = request.ip;
    let now = request.now;
    let known = state.refreshed(ip, now);
    let info = info_in(request.rest)->Some_0;
    let out = handled(state, request).sessions;
    let lobby = known.announced(ip, now, info);
    let is_alive = |s: StoredView| s.alive(now);
    let foreign = |s: StoredView| !s.owned_by(ip);
    let left = living(state.sessions, now);
    let kept = without_owner(known.sessions, ip);
    lemma_filter_members(state.sessions, is_alive);
    lemma_filter_members(known.sessions, foreign);
    law_reannounce_replaces(known, ip, now, info);
    let had = exists|k: int|
        0 <= k < state.sessions.len() && (#[trigger] state.sessions[k]).owned_by(ip)
            && state.sessions[k].alive(now) && state.sessions[k].has_players;
    assert(in_game(known.sessions, ip) == had) by {
        if had {
            let k = choose|k: int|
                0 <= k < state.sessions.len() && (#[trigger] state.sessions[k]).owned_by(ip)
                    && state.sessions[k].alive(now) && state.sessions[k].has_players;
            assert(is_alive(state.sessions[k]));
            let l = choose|l: int| 0 <= l < left.len() && left[l] == state.sessions[k];
            assert(known.sessions[l].owned_by(ip) && known.sessions[l].has_players);
        }
        if in_game(known.sessions, ip) {
            let l = choose|l: int|
                0 <= l < known.sessions.len() && (#[trigger] known.sessions[l]).owned_by(ip)
                    && known.sessions[l].has_players;
            assert(left[l].owner == known.sessions[l].owner);
            assert(state.sessions.contains(left[l]) && is_alive(left[l]));
            let k = choose|k: int| 0 <= k < state.sessions.len() && state.sessions[k] == left[l];
            assert(state.sessions[k].owned_by(ip));
        }
    }
    assert(out[out.len() - 1] == lobby);
    assert forall|k: int|
        0 <= k < state.sessions.len() && !(#[trigger] state.sessions[k]).owned_by(ip)
            && state.sessions[k].alive(now) implies out.contains(state.sessions[k]) by {
        assert(is_alive(state.sessions[k]));
        let l = choose|l: int| 0 <= l < left.len() && left[l] == state.sessions[k];
        assert(known.sessions[l] == state.sessions[k]);
        assert(foreign(known.sessions[l]));
        let m = choose|m: int| 0 <= m < kept.len() && kept[m] == known.sessions[l];
        assert(out[m] == state.sessions[k]);
    }
    assert forall|i: int|
        0 <= i < out.len() && !(#[trigger] out[i]).owned_by(ip) implies state.sessions.contains(
        out[i],
    ) by {
        assert(out[i] == kept[i]);
        let l = choose|l: int| 0 <= l < known.sessions.len() && known.sessions[l] == kept[i];
        assert(left[l] == known.sessions[l]);
        assert(state.sessions.contains(left[l]));
    }
}

/// A lobby that was not heard of for too long is dropped before any task is
/// handled, even if it is its own owner who asks.
pub proof fn law_silent_lobby_is_dropped(state: StateView, peer: Option<IpAddr>, now: u64, i: int)
    requires
        state.wf(),
        0 <= i < state.sessions.len(),
        !state.sessions[i].alive(now),
    ensures
        forall|k: int|
            0 <= k < state.refreshed(peer, now).sessions.len() ==> (#[trigger] state.refreshed(
                peer,
                now,
            ).sessions[k]).id != state.sessions[i].id,
{
    lemma_filter_members(state.sessions, |s: StoredView| s.alive(now));
    let left = living(state.sessions, now);
    let out = state.refreshed(peer, now).sessions;
    assert forall|k: int| 0 <= k < out.len() implies (#[trigger] out[k]).id
        != state.sessions[i].id by {
        assert(state.sessions.contains(left[k]) && left[k].alive(now));
        let m = choose|m: int| 0 <= m < state.sessions.len() && state.sessions[m] == left[k];
        assert(out[k].id == left[k].id);
        assert(state.sessions[m].id == out[k].id);
    }
}

/// A lobby that was heard of recently enough outlives every request but its own
/// withdrawal and a new announcement of its owner. It is as it was, but for an
/// update that names it; and what its owner asks, whatever it is, counts as having
/// been heard of.
pub proof fn law_live_lobby_is_kept(state: StateView, request: Request, i: int)
    requires
        0 <= i < state.sessions.len(),
        state.sessions[i].alive(request.now),
        !(request.registers() && state.sessions[i].owned_by(request.ip)),
        request.task == Some(MatchmakingTaskId::UpdateSession) || request.task == Some(
            MatchmakingTaskId::UpdateSessionPlayers,
        ) || request.task == Some(MatchmakingTaskId::DeleteSession) ==> session_id_in(request.rest)
            != Some(state.sessions[i].id),
    ensures
        handled(state, request).sessions.contains(
            if state.sessions[i].owned_by(request.ip) {
                StoredView { updated: request.now, ..state.sessions[i] }
            } else {
                state.sessions[i]
            },
        ),
{
    let s = state.sessions[i];
    let known = state.refreshed(request.ip, request.now);
    let out = handled(state, request).sessions;
    let is_alive = |s: StoredView| s.alive(request.now);
    lemma_filter_members(state.sessions, is_alive);
    assert(is_alive(state.sessions[i]));
    let left = living(state.sessions, request.now);
    let k = choose|k: int| 0 <= k < left.len() && left[k] == s;
    let kept = known.sessions[k];
    assert(kept == if s.owned_by(request.ip) {
        StoredView { updated: request.now, ..s }
    } else {
        s
    });
    match request.task {
        Some(MatchmakingTaskId::CreateSession) => {
            if request.registers() {
                let foreign = |s: StoredView| !s.owned_by(request.ip);
                lemma_filter_members(known.sessions, foreign);
                assert(foreign(known.sessions[k]));
                let others = without_owner(known.sessions, request.ip);
                let m = choose|m: int| 0 <= m < others.len() && others[m] == kept;
                assert(out[m] == kept);
            } else {
                assert(out[k] == kept);
            }
        },
        Some(MatchmakingTaskId::DeleteSession) => {
            if let Some(id) = session_id_in(request.rest) {
                let other = |s: StoredView| s.id != id;
                lemma_filter_members(known.sessions, other);
                assert(other(known.sessions[k]));
            } else {
                assert(out[k] == kept);
            }
        },
        _ => {
            assert(out[k] == kept);
        },
    }
}

} // verus!
