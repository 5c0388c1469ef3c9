//! What a search shows, in terms of what consoles announced and asked for.

use super::config::{sink_of, MatchmakingConfig};
use super::election::{better_host, compatible, elected_of, pool_of};
use super::handler::{
    answer, ip_of, lemma_filter_consistent, lemma_own_session, lemma_refreshed_wf, row_of,
    ResultView, StateView,
};
use super::laws::{law_never_own_lobby, law_one_host_is_elected, Request};
use super::query::query_playlist;
use super::store::{first_owned, living, own_session, touched, StoredView};
use crate::peer::{IpAddr, Peer};
use crate::sequences::{lemma_filter_members, lemma_filter_twice};
use vstd::prelude::*;

verus! {

/// Whether a lobby was heard of within the last four minutes.
pub open spec fn heard_of(lobby: StoredView, now: u64) -> bool {
    now - lobby.updated < 240_000_000_000
}

/// Whether a lobby is that of the client at an address.
pub open spec fn hosted_by(lobby: StoredView, ip: Option<IpAddr>) -> bool {
    ip is Some && lobby.owner == ip
}

/// Whether the switches let a client see lobbies: there is no list of addresses,
/// or the client's is on it.
pub open spec fn lets_see(config: MatchmakingConfig, peer: Option<Peer>) -> bool {
    config.row_allowlist@.len() == 0 || (peer is Some && exists|i: int|
        0 <= i < config.row_allowlist@.len() && (#[trigger] config.row_allowlist@[i])@
            == peer->Some_0.text@)
}

/// What a client is answered.
pub open spec fn replied(
    state: StateView,
    config: MatchmakingConfig,
    peer: Option<Peer>,
    request: Request,
) -> Seq<ResultView> {
    answer(
        state.refreshed(request.ip, request.now),
        config,
        peer,
        request.task,
        request.raw,
        request.rest,
    )
}

/// Whether a request is a search of a client.
pub open spec fn is_search(peer: Option<Peer>, request: Request) -> bool {
    &&& request.ip == ip_of(peer)
    &&& request.task is Some
    &&& request.task->Some_0 is FindSessions || request.task->Some_0 is FindSessionsPaged
}

/// Whether results are rows of just those lobbies of others that were heard of
/// lately and whose playlist is the given one or not known; with no given playlist,
/// of all lobbies of others that were heard of lately.
pub open spec fn shows_playlist(
    state: StateView,
    rows: Seq<ResultView>,
    ip: Option<IpAddr>,
    now: u64,
    playlist: Option<i32>,
) -> bool {
    &&& forall|j: int|
        0 <= j < rows.len() ==> (#[trigger] rows[j]) is Row && exists|k: int|
            0 <= k < state.sessions.len() && (#[trigger] state.sessions[k]).id == rows[j]->Row_0.id
                && state.sessions[k].info == rows[j]->Row_0.info && heard_of(state.sessions[k], now)
                && !hosted_by(state.sessions[k], ip) && (playlist is None
                || state.sessions[k].playlist is None || state.sessions[k].playlist == playlist)
    &&& forall|k: int|
        0 <= k < state.sessions.len() && heard_of(#[trigger] state.sessions[k], now) && !hosted_by(
            state.sessions[k],
            ip,
        ) && (playlist is None || state.sessions[k].playlist is None || state.sessions[k].playlist
            == playlist) ==> exists|j: int|
            0 <= j < rows.len() && (#[trigger] rows[j]) is Row && rows[j]->Row_0.id
                == state.sessions[k].id && rows[j]->Row_0.info == state.sessions[k].info
}

/// What the service knows after it took note of a request: the lobbies that were
/// heard of lately, with only the time of the client's own ones changed.
pub proof fn lemma_known(state: StateView, ip: Option<IpAddr>, now: u64)
    ensures
        forall|l: int|
            0 <= l < state.refreshed(ip, now).sessions.len() ==> exists|k: int|
                0 <= k < state.sessions.len() && heard_of(#[trigger] state.sessions[k], now)
                    && #[trigger] state.refreshed(ip, now).sessions[l] == (if hosted_by(
                    state.sessions[k],
                    ip,
                ) {
                    StoredView { updated: now, ..state.sessions[k] }
                } else {
                    state.sessions[k]
                }),
        forall|k: int|
            0 <= k < state.sessions.len() && heard_of(#[trigger] state.sessions[k], now)
                ==> state.refreshed(ip, now).sessions.contains(
                if hosted_by(state.sessions[k], ip) {
                    StoredView { updated: now, ..state.sessions[k] }
                } else {
                    state.sessions[k]
                },
            ),
{
    let is_alive = |s: StoredView| s.alive(now);
    let left = living(state.sessions, now);
    let known = state.refreshed(ip, now).sessions;
    lemma_filter_members(state.sessions, is_alive);
    assert forall|l: int| 0 <= l < known.len() implies exists|k: int|
        0 <= k < state.sessions.len() && heard_of(#[trigger] state.sessions[k], now)
            && #[trigger] known[l] == (if hosted_by(state.sessions[k], ip) {
            StoredView { updated: now, ..state.sessions[k] }
        } else {
            state.sessions[k]
        }) by {
        assert(state.sessions.contains(left[l]) && is_alive(left[l]));
        let k = choose|k: int| 0 <= k < state.sessions.len() && state.sessions[k] == left[l];
        assert(heard_of(state.sessions[k], now));
        assert(known[l] == known[l]);
    }
    assert forall|k: int|
        0 <= k < state.sessions.len() && heard_of(
            #[trigger] state.sessions[k],
            now,
        ) implies known.contains(
        if hosted_by(state.sessions[k], ip) {
            StoredView { updated: now, ..state.sessions[k] }
        } else {
            state.sessions[k]
        },
    ) by {
        assert(is_alive(state.sessions[k]));
        let l = choose|l: int| 0 <= l < left.len() && left[l] == state.sessions[k];
        assert(known[l] == (if hosted_by(state.sessions[k], ip) {
            StoredView { updated: now, ..state.sessions[k] }
        } else {
            state.sessions[k]
        }));
    }
}

/// The rows of a search for a playlist, however that was found.
proof fn lemma_rows(
    state: StateView,
    config: MatchmakingConfig,
    peer: Option<Peer>,
    request: Request,
    playlist: Option<i32>,
)
    requires
        is_search(peer, request),
        !config.asymmetric,
        lets_see(config, peer),
        state.refreshed(request.ip, request.now).with_searched(
            request.ip,
            query_playlist(request.raw),
        ).search_playlist(request.ip, query_playlist(request.raw)) == playlist,
    ensures
        shows_playlist(
            state,
            replied(state, config, peer, request),
            request.ip,
            request.now,
            playlist,
        ),
{
    let ip = request.ip;
    let now = request.now;
    let known = state.refreshed(ip, now);
    let rows = replied(state, config, peer, request);
    let fits = |s: StoredView| compatible(playlist, s.playlist);
    let foreign = |s: StoredView| !s.owned_by(ip);
    let pool = pool_of(known.sessions, playlist);
    let shown = pool.filter(foreign);
    lemma_known(state, ip, now);
    lemma_filter_members(known.sessions, fits);
    lemma_filter_members(pool, foreign);
    assert(rows.len() == shown.len());
    assert forall|j: int| 0 <= j < rows.len() implies (#[trigger] rows[j]) is Row && exists|k: int|
        0 <= k < state.sessions.len() && (#[trigger] state.sessions[k]).id == rows[j]->Row_0.id
            && state.sessions[k].info == rows[j]->Row_0.info && heard_of(state.sessions[k], now)
            && !hosted_by(state.sessions[k], ip) && (playlist is None
            || state.sessions[k].playlist is None || state.sessions[k].playlist == playlist) by {
        assert(pool.contains(shown[j]) && foreign(shown[j]));
        let m = choose|m: int| 0 <= m < pool.len() && pool[m] == shown[j];
        assert(known.sessions.contains(pool[m]) && fits(pool[m]));
        let l = choose|l: int| 0 <= l < known.sessions.len() && known.sessions[l] == pool[m];
        let k = choose|k: int|
            0 <= k < state.sessions.len() && heard_of(#[trigger] state.sessions[k], now)
                && known.sessions[l] == (if hosted_by(state.sessions[k], ip) {
                StoredView { updated: now, ..state.sessions[k] }
            } else {
                state.sessions[k]
            });
        assert(state.sessions[k].id == rows[j]->Row_0.id);
    }
    assert forall|k: int|
        0 <= k < state.sessions.len() && heard_of(#[trigger] state.sessions[k], now) && !hosted_by(
            state.sessions[k],
            ip,
        ) && (playlist is None || state.sessions[k].playlist is None || state.sessions[k].playlist
            == playlist) implies exists|j: int|
        0 <= j < rows.len() && (#[trigger] rows[j]) is Row && rows[j]->Row_0.id
            == state.sessions[k].id && rows[j]->Row_0.info == state.sessions[k].info by {
        assert(known.sessions.contains(state.sessions[k]));
        let l = choose|l: int|
            0 <= l < known.sessions.len() && known.sessions[l] == state.sessions[k];
        assert(fits(known.sessions[l]));
        let m = choose|m: int| 0 <= m < pool.len() && pool[m] == known.sessions[l];
        assert(foreign(pool[m]));
        let j = choose|j: int| 0 <= j < shown.len() && shown[j] == pool[m];
        assert(rows[j] is Row && rows[j]->Row_0.id == state.sessions[k].id);
    }
}

/// The client's own lobby is the one it hosts, if that was heard of lately.
proof fn lemma_own_playlist(state: StateView, ip: Option<IpAddr>, now: u64)
    requires
        state.wf(),
    ensures
        forall|k: int|
            0 <= k < state.sessions.len() && hosted_by(#[trigger] state.sessions[k], ip)
                && heard_of(state.sessions[k], now) ==> own_session(
                state.refreshed(ip, now).sessions,
                ip,
            ) is Some && own_session(state.refreshed(ip, now).sessions, ip)->Some_0.playlist
                == state.sessions[k].playlist,
        own_session(state.refreshed(ip, now).sessions, ip) is Some ==> exists|k: int|
            0 <= k < state.sessions.len() && hosted_by(#[trigger] state.sessions[k], ip)
                && heard_of(state.sessions[k], now) && own_session(
                state.refreshed(ip, now).sessions,
                ip,
            )->Some_0.playlist == state.sessions[k].playlist,
{
    let known = state.refreshed(ip, now).sessions;
    lemma_known(state, ip, now);
    if own_session(known, ip) is Some {
        let c = choose|c: int| first_owned(known, ip, c);
        let k = choose|k: int|
            0 <= k < state.sessions.len() && heard_of(#[trigger] state.sessions[k], now)
                && known[c] == (if hosted_by(state.sessions[k], ip) {
                StoredView { updated: now, ..state.sessions[k] }
            } else {
                state.sessions[k]
            });
        assert(hosted_by(state.sessions[k], ip));
    }
    assert forall|k: int|
        0 <= k < state.sessions.len() && hosted_by(#[trigger] state.sessions[k], ip) && heard_of(
            state.sessions[k],
            now,
        ) implies own_session(known, ip) is Some && own_session(known, ip)->Some_0.playlist
        == state.sessions[k].playlist by {
        let mine = StoredView { updated: now, ..state.sessions[k] };
        assert(known.contains(mine));
        let l = choose|l: int| 0 <= l < known.len() && known[l] == mine;
        lemma_owned_has_first(known, ip, l);
        let c = choose|c: int| first_owned(known, ip, c);
        lemma_own_session(known, ip);
        assert(own_session(known, ip) == Some(known[c]));
        let m = choose|m: int|
            0 <= m < state.sessions.len() && heard_of(#[trigger] state.sessions[m], now)
                && known[c] == (if hosted_by(state.sessions[m], ip) {
                StoredView { updated: now, ..state.sessions[m] }
            } else {
                state.sessions[m]
            });
        assert(state.sessions[m].owner == state.sessions[k].owner);
    }
}

proof fn lemma_owned_has_first(sessions: Seq<StoredView>, ip: Option<IpAddr>, n: int)
    requires
        0 <= n < sessions.len(),
        sessions[n].owned_by(ip),
    ensures
        exists|i: int| first_owned(sessions, ip, i),
    decreases n,
{
    if forall|k: int| 0 <= k < n ==> !(#[trigger] sessions[k]).owned_by(ip) {
        assert(first_owned(sessions, ip, n));
    } else {
        let k = choose|k: int| 0 <= k < n && (#[trigger] sessions[k]).owned_by(ip);
        lemma_owned_has_first(sessions, ip, k);
    }
}

/// A search that names a playlist shows just the lobbies of others in that
/// playlist, and those whose playlist is not known, whatever the client hosts and
/// whatever it searched for before.
pub proof fn law_named_playlist_counts(
    state: StateView,
    config: MatchmakingConfig,
    peer: Option<Peer>,
    request: Request,
    p: i32,
)
    requires
        is_search(peer, request),
        !config.asymmetric,
        lets_see(config, peer),
        query_playlist(request.raw) == Some(p),
    ensures
        shows_playlist(
            state,
            replied(state, config, peer, request),
            request.ip,
            request.now,
            Some(p),
        ),
{
    lemma_rows(state, config, peer, request, Some(p));
}

/// A search that names no playlist is for that of the lobby that the client hosts,
/// if it hosts one with a playlist, whatever it searched for before.
pub proof fn law_own_lobby_comes_second(
    state: StateView,
    config: MatchmakingConfig,
    peer: Option<Peer>,
    request: Request,
    k: int,
)
    requires
        state.wf(),
        is_search(peer, request),
        !config.asymmetric,
        lets_see(config, peer),
        query_playlist(request.raw) is None,
        0 <= k < state.sessions.len(),
        hosted_by(state.sessions[k], request.ip),
        heard_of(state.sessions[k], request.now),
        state.sessions[k].playlist is Some,
    ensures
        shows_playlist(
            state,
            replied(state, config, peer, request),
            request.ip,
            request.now,
            state.sessions[k].playlist,
        ),
{
    lemma_own_playlist(state, request.ip, request.now);
    lemma_rows(state, config, peer, request, state.sessions[k].playlist);
}

/// A search that names no playlist, of a client that hosts no lobby with one, is
/// for the playlist that the client searched for last; if there is none, it is for
/// any.
pub proof fn law_last_search_comes_third(
    state: StateView,
    config: MatchmakingConfig,
    peer: Option<Peer>,
    request: Request,
)
    requires
        state.wf(),
        is_search(peer, request),
        !config.asymmetric,
        lets_see(config, peer),
        query_playlist(request.raw) is None,
        forall|k: int|
            0 <= k < state.sessions.len() && hosted_by(#[trigger] state.sessions[k], request.ip)
                && heard_of(state.sessions[k], request.now) ==> state.sessions[k].playlist is None,
    ensures
        shows_playlist(
            state,
            replied(state, config, peer, request),
            request.ip,
            request.now,
            if request.ip is Some && state.last_query.contains_key(request.ip->Some_0) {
                Some(state.last_query[request.ip->Some_0])
            } else {
                None
            },
        ),
{
    let searched = if request.ip is Some && state.last_query.contains_key(request.ip->Some_0) {
        Some(state.last_query[request.ip->Some_0])
    } else {
        None
    };
    lemma_own_playlist(state, request.ip, request.now);
    lemma_rows(state, config, peer, request, searched);
}

/// No lobby is shown twice.
pub proof fn law_no_row_twice(
    state: StateView,
    config: MatchmakingConfig,
    peer: Option<Peer>,
    request: Request,
)
    requires
        state.wf(),
        is_search(peer, request),
    ensures
        forall|i: int, j: int|
            0 <= i < j < replied(state, config, peer, request).len() ==> (#[trigger] replied(
                state,
                config,
                peer,
                request,
            )[i])->Row_0.id != (#[trigger] replied(state, config, peer, request)[j])->Row_0.id,
{
    let ip = request.ip;
    let wanted = query_playlist(request.raw);
    let known = state.refreshed(ip, request.now);
    lemma_refreshed_wf(state, ip, request.now);
    let playlist = known.with_searched(ip, wanted).search_playlist(ip, wanted);
    let pool = pool_of(known.sessions, playlist);
    lemma_filter_consistent(
        known.sessions,
        |s: StoredView| compatible(playlist, s.playlist),
    );
    lemma_filter_consistent(pool, |s: StoredView| !s.owned_by(ip));
}

/// A client that the list of addresses leaves out is shown nothing.
pub proof fn law_unlisted_sees_nothing(
    state: StateView,
    config: MatchmakingConfig,
    peer: Option<Peer>,
    request: Request,
)
    requires
        is_search(peer, request),
        !lets_see(config, peer),
    ensures
        replied(state, config, peer, request).len() == 0,
{
}

/// Rows are redirected to the sink where one is set and meant for the client or
/// for all, and to nothing else.
pub proof fn law_rows_are_redirected(
    state: StateView,
    config: MatchmakingConfig,
    peer: Option<Peer>,
    request: Request,
    j: int,
)
    requires
        is_search(peer, request),
        0 <= j < replied(state, config, peer, request).len(),
    ensures
        ({
            let row = replied(state, config, peer, request)[j]->Row_0;
            let meant = config.sink_for is None || (peer is Some && peer->Some_0.text@
                == config.sink_for->Some_0@);
            &&& meant ==> row.sink == config.sink
            &&& !meant ==> row.sink is None
        }),
{
}

/// Whether one address comes before another: an unknown one first, then version 4
/// before version 6, then the lower number.
pub open spec fn lower_address(a: Option<IpAddr>, b: Option<IpAddr>) -> bool {
    match (a, b) {
        (None, None) => false,
        (None, Some(_)) => true,
        (Some(_), None) => false,
        (Some(IpAddr::V4(_)), Some(IpAddr::V6(_))) => true,
        (Some(IpAddr::V6(_)), Some(IpAddr::V4(_))) => false,
        (Some(IpAddr::V4(x)), Some(IpAddr::V4(y))) => x < y,
        (Some(IpAddr::V6(x)), Some(IpAddr::V6(y))) => x < y,
    }
}

/// Whether a search is for a playlist, or for any: what it names; else that of the
/// lobby that the client hosts; else what the client searched for last.
pub open spec fn is_sought(state: StateView, request: Request, playlist: Option<i32>) -> bool {
    let searched = if request.ip is Some && state.last_query.contains_key(request.ip->Some_0) {
        Some(state.last_query[request.ip->Some_0])
    } else {
        None
    };
    if query_playlist(request.raw) is Some {
        playlist == query_playlist(request.raw)
    } else {
        ||| exists|k: int|
            0 <= k < state.sessions.len() && hosted_by(#[trigger] state.sessions[k], request.ip)
                && heard_of(state.sessions[k], request.now) && state.sessions[k].playlist is Some
                && playlist == state.sessions[k].playlist
        ||| playlist == searched && forall|k: int|
            0 <= k < state.sessions.len() && hosted_by(#[trigger] state.sessions[k], request.ip)
                && heard_of(state.sessions[k], request.now) ==> state.sessions[k].playlist is None
    }
}

/// What a search is for.
proof fn lemma_sought(state: StateView, request: Request, playlist: Option<i32>)
    requires
        state.wf(),
        is_sought(state, request, playlist),
    ensures
        state.refreshed(request.ip, request.now).with_searched(
            request.ip,
            query_playlist(request.raw),
        ).search_playlist(request.ip, query_playlist(request.raw)) == playlist,
{
    lemma_own_playlist(state, request.ip, request.now);
}

/// Marking lobbies as heard of, and leaving some out by what else is known of them,
/// can be done in either order.
proof fn lemma_filter_touched(
    sessions: Seq<StoredView>,
    ip: Option<IpAddr>,
    now: u64,
    pred: spec_fn(StoredView) -> bool,
)
    requires
        forall|s: StoredView| #[trigger] pred(StoredView { updated: now, ..s }) == pred(s),
    ensures
        touched(sessions, ip, now).filter(pred) == touched(sessions.filter(pred), ip, now),
    decreases sessions.len(),
{
    reveal(Seq::filter);
    if sessions.len() > 0 {
        let init = sessions.drop_last();
        let last = sessions.last();
        lemma_filter_touched(init, ip, now, pred);
        let marked = touched(sessions, ip, now);
        assert(marked.drop_last() =~= touched(init, ip, now));
        assert(pred(StoredView { updated: now, ..last }) == pred(last));
        assert(touched(init.filter(pred).push(last), ip, now) =~= touched(
            init.filter(pred),
            ip,
            now,
        ).push(marked.last()));
    } else {
        assert(touched(sessions, ip, now).filter(pred) =~= touched(
            sessions.filter(pred),
            ip,
            now,
        ));
    }
}

/// Rows stand in the order in which their lobbies were announced: they are those of
/// the lobbies of others that were heard of lately, of the playlist that the search
/// is for or of none, one after the other.
pub proof fn law_rows_in_order(
    state: StateView,
    config: MatchmakingConfig,
    peer: Option<Peer>,
    request: Request,
    playlist: Option<i32>,
    j: int,
)
    requires
        state.wf(),
        is_search(peer, request),
        !config.asymmetric,
        lets_see(config, peer),
        is_sought(state, request, playlist),
    ensures
        ({
            let rows = replied(state, config, peer, request);
            let found = state.sessions.filter(
                |s: StoredView|
                    eligible(s, request.now, playlist) && !hosted_by(s, request.ip),
            );
            &&& rows.len() == found.len()
            &&& 0 <= j < rows.len() ==> rows[j] is Row && rows[j]->Row_0.id == found[j].id
                && rows[j]->Row_0.info == found[j].info
        }),
{
    let ip = request.ip;
    let now = request.now;
    let fits = |s: StoredView| compatible(playlist, s.playlist);
    let foreign = |s: StoredView| !s.owned_by(ip);
    let both = |s: StoredView| compatible(playlist, s.playlist) && !s.owned_by(ip);
    let all = |s: StoredView| eligible(s, now, playlist) && !hosted_by(s, ip);
    let left = living(state.sessions, now);
    lemma_sought(state, request, playlist);
    lemma_filter_twice(touched(left, ip, now), fits, foreign, both);
    assert forall|s: StoredView| #[trigger] both(StoredView { updated: now, ..s }) == both(s) by {}
    lemma_filter_touched(left, ip, now, both);
    lemma_filter_twice(state.sessions, |s: StoredView| s.alive(now), both, all);
}

/// With an election a search shows one lobby at most, not the client's own; and no
/// lobby of the playlist that the search is for, or of none, the client's own
/// included, has players where that one has none, can be reached where it cannot,
/// or has a lower address where they are alike in both. Only if there is no such
/// lobby, or the best one is the client's own, nothing is shown.
pub proof fn law_the_elected_lobby_is_best(
    state: StateView,
    config: MatchmakingConfig,
    peer: Option<Peer>,
    request: Request,
    playlist: Option<i32>,
)
    requires
        state.wf(),
        is_search(peer, request),
        config.asymmetric,
        is_sought(state, request, playlist),
    ensures
        ({
            let rows = replied(state, config, peer, request);
            &&& rows.len() <= 1
            &&& rows.len() == 1 ==> exists|h: int|
                0 <= h < state.sessions.len() && rows[0]->Row_0.id == (
                #[trigger] state.sessions[h]).id && rows[0]->Row_0.info == state.sessions[h].info
                    && is_best(state, request, playlist, h) && !hosted_by(state.sessions[h], request.ip)
            &&& rows.len() == 0 && lets_see(config, peer) ==> (forall|k: int|
                0 <= k < state.sessions.len() ==> !eligible(
                    #[trigger] state.sessions[k],
                    request.now,
                    playlist,
                )) || exists|h: int|
                0 <= h < state.sessions.len() && hosted_by(#[trigger] state.sessions[h], request.ip)
                    && is_best(state, request, playlist, h)
        }),
{
    let ip = request.ip;
    let now = request.now;
    let known = state.refreshed(ip, now);
    let rows = replied(state, config, peer, request);
    let wanted = query_playlist(request.raw);
    let fits = |s: StoredView| compatible(playlist, s.playlist);
    let pool = pool_of(known.sessions, playlist);
    lemma_sought(state, request, playlist);
    lemma_known(state, ip, now);
    lemma_filter_members(known.sessions, fits);
    law_one_host_is_elected(pool);
    law_never_own_lobby(known.with_searched(ip, wanted), ip, wanted, true);
    if pool.len() == 0 {
        assert forall|k: int| 0 <= k < state.sessions.len() implies !eligible(
            #[trigger] state.sessions[k],
            now,
            playlist,
        ) by {
            if eligible(state.sessions[k], now, playlist) {
                let s = if hosted_by(state.sessions[k], ip) {
                    StoredView { updated: now, ..state.sessions[k] }
                } else {
                    state.sessions[k]
                };
                assert(known.sessions.contains(s));
                let l = choose|l: int| 0 <= l < known.sessions.len() && known.sessions[l] == s;
                assert(fits(known.sessions[l]));
                assert(pool.contains(known.sessions[l]));
            }
        }
        assert(pool.filter(|s: StoredView| !s.owned_by(ip)).len() == 0) by {
            reveal(Seq::filter);
        }
    } else {
        let host = elected_of(pool)->Some_0;
        let m = choose|m: int| 0 <= m < pool.len() && pool[m] == host;
        assert(known.sessions.contains(pool[m]) && fits(pool[m]));
        let l = choose|l: int| 0 <= l < known.sessions.len() && known.sessions[l] == host;
        let h = choose|h: int|
            0 <= h < state.sessions.len() && heard_of(#[trigger] state.sessions[h], now)
                && known.sessions[l] == (if hosted_by(state.sessions[h], ip) {
                StoredView { updated: now, ..state.sessions[h] }
            } else {
                state.sessions[h]
            });
        assert forall|k: int| 0 <= k < state.sessions.len() && eligible(
            #[trigger] state.sessions[k],
            now,
            playlist,
        ) implies !outdoes(state.sessions[k], state.sessions[h]) by {
            let s = if hosted_by(state.sessions[k], ip) {
                StoredView { updated: now, ..state.sessions[k] }
            } else {
                state.sessions[k]
            };
            assert(known.sessions.contains(s));
            let q = choose|q: int| 0 <= q < known.sessions.len() && known.sessions[q] == s;
            assert(fits(known.sessions[q]));
            assert(pool.contains(known.sessions[q]));
            let w = choose|w: int| 0 <= w < pool.len() && pool[w] == s;
            assert(!better_host(pool[w], host));
        }
        assert(is_best(state, request, playlist, h));
        if let Some(own) = own_session(known.sessions, ip) {
            let c = choose|c: int| first_owned(known.sessions, ip, c);
            assert(own == known.sessions[c]);
            if host.owner == own.owner {
                assert(hosted_by(state.sessions[h], ip));
            }
        }
        if rows.len() == 1 {
            assert(rows[0] == row_of(host, sink_of(config, peer)));
            assert(known.with_searched(ip, wanted).shown(ip, wanted, true)[0] == host);
            assert(!hosted_by(state.sessions[h], ip));
        }
    }
}

/// Whether a lobby was heard of lately and is of a playlist, or of none.
pub open spec fn eligible(lobby: StoredView, now: u64, playlist: Option<i32>) -> bool {
    heard_of(lobby, now) && (playlist is None || lobby.playlist is None || lobby.playlist
        == playlist)
}

/// Whether one lobby makes a better target than another.
pub open spec fn outdoes(a: StoredView, b: StoredView) -> bool {
    ||| a.has_players && !b.has_players
    ||| a.has_players == b.has_players && a.reachable() && !b.reachable()
    ||| a.has_players == b.has_players && a.reachable() == b.reachable() && lower_address(
        a.owner,
        b.owner,
    )
}

/// Whether a lobby is eligible and no eligible one outdoes it.
pub open spec fn is_best(state: StateView, request: Request, playlist: Option<i32>, h: int) -> bool {
    &&& eligible(state.sessions[h], request.now, playlist)
    &&& forall|k: int|
        0 <= k < state.sessions.len() && eligible(#[trigger] state.sessions[k], request.now, playlist)
            ==> !outdoes(state.sessions[k], state.sessions[h])
}

} // verus!
