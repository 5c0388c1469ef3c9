//! The matchmaking service: consoles announce a lobby, refresh it, withdraw it,
//! and search for the lobbies of others.

use super::config::{listed, may_receive_rows, sink_of, stage1_sink, MatchmakingConfig};
use super::election::{at_places, elect, elected_of, in_range, others, pool, pool_of};
use super::info::{
    info_in, optional_view, parse_session_info, read_session_id, session_id_in, InfoView, RowView,
    SessionIdResult, SessionInfo, SessionRow,
};
use super::query::{parse_query_playlist, query_playlist, PLAYLIST_GROUPING_MIN};
use super::store::{
    consistent, first_owned, in_game, living, own_session, touched, without_id, without_owner,
    SessionStore, StoredSession, StoredView,
};
use crate::peer::{lookup, same_addr, AddrMap, IpAddr, Peer};
use crate::sequences::{lemma_filter_members, lemma_filter_push};
use crate::session::BdSession;
use crate::wire::{
    after_first, next_u8, read_error, BdErrorCode, BdMessage, BdReadError, BdReader, TaskReply, Val,
};
use vstd::prelude::*;

verus! {

/// What a console can ask of the service.
#[derive(Debug, Copy, Clone, PartialEq, Eq, Structural)]
pub enum MatchmakingTaskId {
    CreateSession,
    UpdateSession,
    DeleteSession,
    FindSessions,
    UpdateSessionPlayers,
    FindSessionsPaged,
    FindSessionsByEntityIds,
    FindSessionsFromIds,
}

/// The task that a number stands for.
pub open spec fn task_of(value: u8) -> Option<MatchmakingTaskId> {
    if value == 1 {
        Some(MatchmakingTaskId::CreateSession)
    } else if value == 2 {
        Some(MatchmakingTaskId::UpdateSession)
    } else if value == 3 {
        Some(MatchmakingTaskId::DeleteSession)
    } else if value == 5 {
        Some(MatchmakingTaskId::FindSessions)
    } else if value == 12 {
        Some(MatchmakingTaskId::UpdateSessionPlayers)
    } else if value == 13 {
        Some(MatchmakingTaskId::FindSessionsPaged)
    } else if value == 14 {
        Some(MatchmakingTaskId::FindSessionsByEntityIds)
    } else if value == 15 {
        Some(MatchmakingTaskId::FindSessionsFromIds)
    } else {
        None
    }
}

impl MatchmakingTaskId {
    /// The task that a number stands for.
    pub fn from_u8(value: u8) -> (task: Option<MatchmakingTaskId>)
        ensures
            task == task_of(value),
    {
        match value {
            1 => Some(MatchmakingTaskId::CreateSession),
            2 => Some(MatchmakingTaskId::UpdateSession),
            3 => Some(MatchmakingTaskId::DeleteSession),
            5 => Some(MatchmakingTaskId::FindSessions),
            12 => Some(MatchmakingTaskId::UpdateSessionPlayers),
            13 => Some(MatchmakingTaskId::FindSessionsPaged),
            14 => Some(MatchmakingTaskId::FindSessionsByEntityIds),
            15 => Some(MatchmakingTaskId::FindSessionsFromIds),
            _ => None,
        }
    }
}

/// One result in the answer of the service.
#[derive(Debug)]
pub enum MatchmakingResult {
    SessionId(SessionIdResult),
    Row(SessionRow),
}

/// A [`MatchmakingResult`] as a mathematical value.
pub ghost enum ResultView {
    SessionId(u64),
    Row(RowView),
}

impl View for MatchmakingResult {
    type V = ResultView;

    open spec fn view(&self) -> ResultView {
        match self {
            MatchmakingResult::SessionId(result) => ResultView::SessionId(result.id),
            MatchmakingResult::Row(row) => ResultView::Row(row@),
        }
    }
}

/// The results of an answer.
pub open spec fn results_of(reply: TaskReply<MatchmakingResult>) -> Seq<ResultView> {
    reply.results@.map_values(|r: MatchmakingResult| r@)
}

/// What the service remembers between requests: the announced lobbies, the id of
/// the next one, and the playlist that each console searched for last.
pub struct MatchmakingState {
    pub store: SessionStore,
    pub next_session_id: u64,
    pub last_query_playlist: AddrMap<i32>,
}

/// A [`MatchmakingState`] as a mathematical value.
pub ghost struct StateView {
    pub sessions: Seq<StoredView>,
    pub next_id: u64,
    pub last_query: Map<IpAddr, i32>,
}

impl View for MatchmakingState {
    type V = StateView;

    open spec fn view(&self) -> StateView {
        StateView {
            sessions: self.store@,
            next_id: self.next_session_id,
            last_query: self.last_query_playlist@,
        }
    }
}

impl StateView {
    /// Lobbies are told apart by their ids, all of which have been handed out, and
    /// each known address has at most one lobby.
    pub open spec fn wf(self) -> bool {
        &&& consistent(self.sessions)
        &&& forall|i: int|
            0 <= i < self.sessions.len() ==> (#[trigger] self.sessions[i]).id < self.next_id
    }

    /// The state after any request of `peer` has been taken note of: lobbies that
    /// have not been heard of for too long are gone, those of `peer` are fresh.
    pub open spec fn refreshed(self, peer: Option<IpAddr>, now: u64) -> StateView {
        StateView { sessions: touched(living(self.sessions, now), peer, now), ..self }
    }

    /// The playlist of a lobby: the number in its description, if it is that of a
    /// playlist, else what its owner searched for last.
    pub open spec fn playlist_of(self, info: InfoView, owner: Option<IpAddr>) -> Option<i32> {
        if info.ints.len() > 5 && 1 <= info.ints[5] < PLAYLIST_GROUPING_MIN {
            Some(info.ints[5])
        } else {
            match owner {
                Some(ip) => lookup(self.last_query, ip),
                None => None,
            }
        }
    }

    /// The lobby that an announcement of `peer` registers.
    pub open spec fn announced(self, peer: Option<IpAddr>, now: u64, info: InfoView) -> StoredView {
        StoredView {
            id: self.next_id,
            owner: peer,
            info,
            updated: now,
            playlist: self.playlist_of(info, peer),
            has_players: in_game(self.sessions, peer),
        }
    }

    /// The state after an announcement: the new lobby takes the place of any
    /// earlier one of `peer`.
    pub open spec fn with_announced(self, peer: Option<IpAddr>, now: u64, info: InfoView) -> StateView {
        StateView {
            sessions: without_owner(self.sessions, peer).push(self.announced(peer, now, info)),
            next_id: (self.next_id + 1) as u64,
            ..self
        }
    }

    /// A lobby after an update of its host.
    pub open spec fn renewed(
        self,
        s: StoredView,
        now: u64,
        info: Option<InfoView>,
        players: bool,
    ) -> StoredView {
        StoredView {
            updated: now,
            playlist: match info {
                Some(i) => match self.playlist_of(i, s.owner) {
                    Some(p) => Some(p),
                    None => s.playlist,
                },
                None => s.playlist,
            },
            info: match info {
                Some(i) => i,
                None => s.info,
            },
            has_players: s.has_players || players,
            ..s
        }
    }

    /// The state after an update of the lobby with this id.
    pub open spec fn with_renewed(
        self,
        id: u64,
        now: u64,
        info: Option<InfoView>,
        players: bool,
    ) -> StateView {
        StateView {
            sessions: self.sessions.map_values(
                |s: StoredView|
                    if s.id == id {
                        self.renewed(s, now, info, players)
                    } else {
                        s
                    },
            ),
            ..self
        }
    }

    /// The state after the lobby with this id has been withdrawn.
    pub open spec fn with_withdrawn(self, id: u64) -> StateView {
        StateView { sessions: without_id(self.sessions, id), ..self }
    }

    /// The state after a search of `peer`.
    pub open spec fn with_searched(self, peer: Option<IpAddr>, wanted: Option<i32>) -> StateView {
        match (peer, wanted) {
            (Some(ip), Some(playlist)) => StateView {
                last_query: self.last_query.insert(ip, playlist),
                ..self
            },
            _ => self,
        }
    }

    /// The playlist that a search is for: the one it names, else that of the
    /// searcher's own lobby, else the one searched for last.
    pub open spec fn search_playlist(self, peer: Option<IpAddr>, wanted: Option<i32>) -> Option<
        i32,
    > {
        let own = match own_session(self.sessions, peer) {
            Some(s) => s.playlist,
            None => None,
        };
        if wanted is Some {
            wanted
        } else if own is Some {
            own
        } else {
            match peer {
                Some(ip) => lookup(self.last_query, ip),
                None => None,
            }
        }
    }

    /// The host that a search elects, where one is elected.
    pub open spec fn search_host(
        self,
        peer: Option<IpAddr>,
        wanted: Option<i32>,
        asymmetric: bool,
    ) -> Option<StoredView> {
        if asymmetric {
            elected_of(pool_of(self.sessions, self.search_playlist(peer, wanted)))
        } else {
            None
        }
    }

    /// The lobbies that a search shows. With an elected host there is only that
    /// one, and the host itself is shown none; else everybody is shown all but
    /// their own.
    pub open spec fn shown(self, peer: Option<IpAddr>, wanted: Option<i32>, asymmetric: bool) -> Seq<
        StoredView,
    > {
        match self.search_host(peer, wanted, asymmetric) {
            Some(host) => match own_session(self.sessions, peer) {
                Some(own) if host.owner == own.owner => Seq::empty(),
                _ => seq![host],
            },
            None => pool_of(self.sessions, self.search_playlist(peer, wanted)).filter(
                |s: StoredView| !s.owned_by(peer),
            ),
        }
    }
}

/// The row that shows a lobby.
pub open spec fn row_of(s: StoredView, sink: Option<[u8; 6]>) -> ResultView {
    ResultView::Row(RowView { id: s.id, info: s.info, sink })
}

/// The address of a peer, where it is known.
pub open spec fn ip_of(peer: Option<Peer>) -> Option<IpAddr> {
    match peer {
        Some(p) => Some(p.ip),
        None => None,
    }
}

/// What a request is answered with.
pub open spec fn answer(
    state: StateView,
    config: MatchmakingConfig,
    peer: Option<Peer>,
    task: Option<MatchmakingTaskId>,
    raw: Seq<u8>,
    rest: Seq<Val>,
) -> Seq<ResultView> {
    let ip = ip_of(peer);
    match task {
        Some(MatchmakingTaskId::CreateSession) => if info_in(rest) is Some && config.reply_with_id {
            seq![ResultView::SessionId(state.next_id)]
        } else {
            Seq::empty()
        },
        Some(MatchmakingTaskId::FindSessions) | Some(MatchmakingTaskId::FindSessionsPaged) => {
            let wanted = query_playlist(raw);
            if listed(config.row_allowlist@, peer) {
                state.with_searched(ip, wanted).shown(ip, wanted, config.asymmetric).map_values(
                    |s: StoredView| row_of(s, sink_of(config, peer)),
                )
            } else {
                Seq::empty()
            }
        },
        _ => Seq::empty(),
    }
}

/// What a request leaves behind.
pub open spec fn outcome(
    state: StateView,
    ip: Option<IpAddr>,
    now: u64,
    task: Option<MatchmakingTaskId>,
    raw: Seq<u8>,
    rest: Seq<Val>,
) -> StateView {
    match task {
        Some(MatchmakingTaskId::CreateSession) => match info_in(rest) {
            Some(info) => state.with_announced(ip, now, info),
            None => state,
        },
        Some(MatchmakingTaskId::UpdateSession) | Some(MatchmakingTaskId::UpdateSessionPlayers) => {
            match session_id_in(rest) {
                Some(id) => state.with_renewed(
                    id,
                    now,
                    info_in(after_first(rest)),
                    task == Some(MatchmakingTaskId::UpdateSessionPlayers),
                ),
                None => state,
            }
        },
        Some(MatchmakingTaskId::DeleteSession) => match session_id_in(rest) {
            Some(id) => state.with_withdrawn(id),
            None => state,
        },
        Some(MatchmakingTaskId::FindSessions) | Some(MatchmakingTaskId::FindSessionsPaged) => {
            state.with_searched(ip, query_playlist(raw))
        },
        _ => state,
    }
}

impl MatchmakingState {
    pub open spec fn wf(self) -> bool {
        self@.wf() && self.last_query_playlist.wf()
    }

    /// A service that has seen nothing yet.
    pub fn new() -> (state: MatchmakingState)
        ensures
            state.wf(),
            state@.sessions == Seq::<StoredView>::empty(),
            state@.next_id == 1,
            state@.last_query == Map::<IpAddr, i32>::empty(),
    {
        MatchmakingState {
            store: SessionStore::new(),
            next_session_id: 1,
            last_query_playlist: AddrMap::new(),
        }
    }

    /// Takes note of a request: drops lobbies that have not been heard of for too
    /// long, and marks those of `peer` as fresh.
    fn refresh(&mut self, peer: Option<IpAddr>, now: u64)
        requires
            old(self).wf(),
        ensures
            final(self).wf(),
            final(self)@ == old(self)@.refreshed(peer, now),
    {
        self.store.expire(now);
        self.store.touch(peer, now);
        proof {
            lemma_refreshed_wf(old(self)@, peer, now);
        }
    }

    /// The playlist of a lobby with this description and owner.
    fn session_playlist(&self, info: &SessionInfo, owner: Option<IpAddr>) -> (playlist: Option<i32>)
        requires
            self.wf(),
        ensures
            playlist == self@.playlist_of(info@, owner),
    {
        if info.ints.len() > 5 && 1 <= info.ints[5] && info.ints[5] < PLAYLIST_GROUPING_MIN {
            Some(info.ints[5])
        } else {
            match owner {
                Some(ip) => self.last_query_playlist.get(&ip),
                None => None,
            }
        }
    }
}

impl MatchmakingState {
    /// Registers the lobby that `peer` announces, and answers with its id.
    pub fn create_session(&mut self, info: SessionInfo, peer: Option<IpAddr>, now: u64) -> (id: u64)
        requires
            old(self).wf(),
            old(self)@.next_id < u64::MAX,
        ensures
            final(self).wf(),
            final(self)@ == old(self)@.with_announced(peer, now, info@),
            id == old(self)@.next_id,
    {
        let id: u64 = self.next_session_id;
        let playlist: Option<i32> = self.session_playlist(&info, peer);
        self.next_session_id = id + 1;
        let has_players: bool = self.store.has_players(peer);
        self.store.drop_owner(peer);
        self.store.push(StoredSession { id, owner: peer, info, updated: now, playlist, has_players });
        proof {
            lemma_announced_wf(old(self)@, peer, now, info@);
        }
        id
    }

    /// Renews the lobby with this id, if it is there; `info` is its new
    /// description, if one was sent, and `players` says that the roster changed.
    pub fn update_session(&mut self, id: u64, info: Option<SessionInfo>, players: bool, now: u64)
        requires
            old(self).wf(),
        ensures
            final(self).wf(),
            final(self)@ == old(self)@.with_renewed(
                id,
                now,
                optional_view(info),
                players,
            ),
    {
        let ghost view = optional_view(info);
        let ghost target = old(self)@.with_renewed(id, now, view, players);
        match self.store.find(id) {
            Some(i) => {
                let existing: &StoredSession = self.store.get(i);
                let owner: Option<IpAddr> = existing.owner;
                let renewed = match info {
                    Some(info) => {
                        let playlist: Option<i32> = match self.session_playlist(&info, owner) {
                            Some(p) => Some(p),
                            None => existing.playlist,
                        };
                        StoredSession {
                            id: existing.id,
                            owner,
                            info,
                            updated: now,
                            playlist,
                            has_players: existing.has_players || players,
                        }
                    },
                    None => StoredSession {
                        id: existing.id,
                        owner,
                        info: existing.info.duplicate(),
                        updated: now,
                        playlist: existing.playlist,
                        has_players: existing.has_players || players,
                    },
                };
                self.store.replace(i, renewed);
                proof {
                    let before = old(self)@.sessions;
                    assert forall|k: int| 0 <= k < before.len() && k != i implies (
                    #[trigger] before[k]).id != id by {}
                    assert(self@.sessions =~= target.sessions);
                    assert(self@ == target);
                }
            },
            None => {
                proof {
                    assert(self@.sessions =~= target.sessions);
                    assert(self@ == target);
                }
            },
        }
        proof {
            lemma_renewed_wf(old(self)@, id, now, view, players);
        }
    }

    /// Withdraws the lobby with this id, if it is there.
    pub fn delete_session(&mut self, id: u64)
        requires
            old(self).wf(),
        ensures
            final(self).wf(),
            final(self)@ == old(self)@.with_withdrawn(id),
    {
        self.store.remove(id);
        proof {
            lemma_withdrawn_wf(old(self)@, id);
        }
    }

    /// Searches for lobbies on behalf of `peer`; `wanted` is the playlist that the
    /// search names.
    pub fn find_sessions(
        &mut self,
        config: &MatchmakingConfig,
        peer: &Option<Peer>,
        wanted: Option<i32>,
    ) -> (rows: Vec<MatchmakingResult>)
        requires
            old(self).wf(),
        ensures
            final(self).wf(),
            final(self)@ == old(self)@.with_searched(ip_of(*peer), wanted),
            rows@.map_values(|r: MatchmakingResult| r@) == if listed(config.row_allowlist@, *peer) {
                final(self)@.shown(ip_of(*peer), wanted, config.asymmetric).map_values(
                    |s: StoredView| row_of(s, sink_of(*config, *peer)),
                )
            } else {
                Seq::<ResultView>::empty()
            },
    {
        let ip: Option<IpAddr> = match peer {
            Some(p) => Some(p.ip),
            None => None,
        };
        if let (Some(addr), Some(playlist)) = (ip, wanted) {
            self.last_query_playlist.insert(addr, playlist);
        }
        let ghost st = self@;
        let own: Option<usize> = self.store.find_owned(ip);
        proof {
            lemma_own_session(st.sessions, ip);
        }
        let own_playlist: Option<i32> = match own {
            Some(i) => self.store.get(i).playlist,
            None => None,
        };
        let playlist: Option<i32> = if wanted.is_some() {
            wanted
        } else if own_playlist.is_some() {
            own_playlist
        } else {
            match ip {
                Some(addr) => self.last_query_playlist.get(&addr),
                None => None,
            }
        };
        let places: Vec<usize> = pool(&self.store, playlist);
        let host: Option<usize> = if config.asymmetric {
            elect(&self.store, &places)
        } else {
            None
        };
        let visible: Vec<usize> = match host {
            Some(h) => {
                let is_own: bool = match own {
                    Some(o) => same_addr(self.store.get(h).owner, self.store.get(o).owner),
                    None => false,
                };
                let mut one: Vec<usize> = Vec::new();
                if !is_own {
                    one.push(h);
                }
                one
            },
            None => others(&self.store, &places, ip),
        };
        proof {
            assert(in_range(st.sessions, visible@));
            assert(at_places(st.sessions, visible@) =~= st.shown(ip, wanted, config.asymmetric));
        }
        let sink: Option<[u8; 6]> = stage1_sink(config, peer);
        let mut rows: Vec<MatchmakingResult> = Vec::new();
        if may_receive_rows(config, peer) {
            let ghost all = at_places(st.sessions, visible@);
            let ghost show = |s: StoredView| row_of(s, sink);
            let mut i: usize = 0;
            while i < visible.len()
                invariant
                    i <= visible@.len(),
                    self.store@ == st.sessions,
                    in_range(st.sessions, visible@),
                    all == at_places(st.sessions, visible@),
                    show == (|s: StoredView| row_of(s, sink)),
                    rows@.map_values(|r: MatchmakingResult| r@) =~= all.take(i as int).map_values(show),
                decreases visible@.len() - i,
            {
                let ghost before = rows@;
                let s: &StoredSession = self.store.get(visible[i]);
                rows.push(
                    MatchmakingResult::Row(SessionRow { id: s.id, info: s.info.duplicate(), sink }),
                );
                proof {
                    assert(rows@[rows@.len() - 1]@ == show(all[i as int]));
                    assert(rows@.map_values(|r: MatchmakingResult| r@) =~= before.map_values(
                        |r: MatchmakingResult| r@,
                    ).push(show(all[i as int])));
                    assert(all.take(i + 1) =~= all.take(i as int).push(all[i as int]));
                }
                i = i + 1;
            }
            proof {
                assert(all.take(i as int) =~= all);
            }
        } else {
            proof {
                assert(rows@.map_values(|r: MatchmakingResult| r@) =~= Seq::<ResultView>::empty());
            }
        }
        rows
    }
}

/// The matchmaking service.
pub struct MatchmakingHandler;

impl Default for MatchmakingHandler {
    fn default() -> (handler: MatchmakingHandler)
        ensures
            handler == MatchmakingHandler,
    {
        MatchmakingHandler::new()
    }
}

impl MatchmakingHandler {
    pub fn new() -> (handler: MatchmakingHandler)
        ensures
            handler == MatchmakingHandler,
    {
        MatchmakingHandler
    }

    /// Answers one request.
    ///
    /// A request without a task is refused and leaves no trace. Any other one is
    /// answered with success: an announcement with the id of the lobby, a search
    /// with the lobbies it shows, everything else with no results, even if it
    /// could not be made sense of.
    pub fn handle_message(
        &self,
        session: &BdSession,
        message: BdMessage,
        config: &MatchmakingConfig,
        now: u64,
        state: &mut MatchmakingState,
    ) -> (r: Result<TaskReply<MatchmakingResult>, BdReadError>)
        requires
            message.reader.wf(),
            old(state).wf(),
            next_u8(message.reader.rest()) == Some(1u8) && info_in(
                message.reader.rest().drop_first(),
            ) is Some ==> old(state)@.next_id < u64::MAX,
        ensures
            final(state).wf(),
            match next_u8(message.reader.rest()) {
                None => {
                    &&& r == Err::<TaskReply<MatchmakingResult>, BdReadError>(
                        read_error(message.reader.rest()),
                    )
                    &&& final(state)@ == old(state)@
                },
                Some(value) => {
                    let known = old(state)@.refreshed(session.addr(), now);
                    let task = task_of(value);
                    let raw = message.reader.raw();
                    let rest = message.reader.rest().drop_first();
                    &&& r matches Ok(reply)
                    &&& reply.task_id == value
                    &&& reply.error_code == BdErrorCode::NoError
                    &&& results_of(reply) == answer(known, *config, session.peer, task, raw, rest)
                    &&& final(state)@ == outcome(known, session.addr(), now, task, raw, rest)
                },
            },
    {
        let mut reader: BdReader = message.reader;
        let task_id_value: u8 = match reader.read_u8() {
            Ok(v) => v,
            Err(e) => return Err(e),
        };
        let peer: Option<IpAddr> = session.peer_ip();
        let task: Option<MatchmakingTaskId> = MatchmakingTaskId::from_u8(task_id_value);
        let ghost rest = reader.rest();
        state.refresh(peer, now);

        let mut results: Vec<MatchmakingResult> = Vec::new();
        match task {
            Some(MatchmakingTaskId::CreateSession) => {
                if let Ok(info) = parse_session_info(&mut reader) {
                    let id: u64 = state.create_session(info, peer, now);
                    if config.reply_with_id {
                        results.push(MatchmakingResult::SessionId(SessionIdResult { id }));
                    }
                }
            },
            Some(MatchmakingTaskId::UpdateSession)
            | Some(MatchmakingTaskId::UpdateSessionPlayers) => {
                if let Some(id) = read_session_id(&mut reader) {
                    let info: Option<SessionInfo> = match parse_session_info(&mut reader) {
                        Ok(info) => Some(info),
                        Err(_) => None,
                    };
                    let players: bool = task_id_value == 12;
                    state.update_session(id, info, players, now);
                }
            },
            Some(MatchmakingTaskId::DeleteSession) => {
                if let Some(id) = read_session_id(&mut reader) {
                    state.delete_session(id);
                }
            },
            Some(MatchmakingTaskId::FindSessions) | Some(MatchmakingTaskId::FindSessionsPaged) => {
                let wanted: Option<i32> = parse_query_playlist(reader.get_buffer());
                results = state.find_sessions(config, &session.peer, wanted);
            },
            _ => {},
        }
        let reply = TaskReply::with_results(task_id_value, results);
        proof {
            let known = old(state)@.refreshed(peer, now);
            assert(results_of(reply) =~= answer(
                known,
                *config,
                session.peer,
                task,
                reader.raw(),
                rest,
            ));
        }
        Ok(reply)
    }
}

/// The first lobby of an address is the one that stands first.
pub proof fn lemma_own_session(sessions: Seq<StoredView>, peer: Option<IpAddr>)
    ensures
        forall|i: int|
            first_owned(sessions, peer, i) ==> own_session(sessions, peer) == Some(
                #[trigger] sessions[i],
            ),
        (forall|k: int| 0 <= k < sessions.len() ==> !(#[trigger] sessions[k]).owned_by(peer))
            ==> own_session(sessions, peer) is None,
{
    assert forall|i: int| first_owned(sessions, peer, i) implies own_session(sessions, peer) == Some(
        #[trigger] sessions[i],
    ) by {
        let c = choose|c: int| first_owned(sessions, peer, c);
        assert(first_owned(sessions, peer, c));
        if c < i {
            assert(!sessions[c].owned_by(peer));
        }
        if i < c {
            assert(!sessions[i].owned_by(peer));
        }
    }
}

/// An announcement keeps the state in order.
proof fn lemma_announced_wf(state: StateView, peer: Option<IpAddr>, now: u64, info: InfoView)
    requires
        state.wf(),
        state.next_id < u64::MAX,
    ensures
        state.with_announced(peer, now, info).wf(),
{
    let pred = |s: StoredView| !s.owned_by(peer);
    lemma_filter_consistent(state.sessions, pred);
    let kept = without_owner(state.sessions, peer);
    let next = state.with_announced(peer, now, info);
    let out = next.sessions;
    assert forall|i: int| 0 <= i < kept.len() implies (#[trigger] kept[i]).id < state.next_id
        && !kept[i].owned_by(peer) by {
        let k = choose|k: int| 0 <= k < state.sessions.len() && state.sessions[k] == kept[i];
        assert(state.sessions[k].id == kept[i].id);
        assert(pred(kept[i]));
    }
    assert(forall|i: int| 0 <= i < kept.len() ==> #[trigger] out[i] == kept[i]);
    assert(consistent(out));
    assert forall|i: int| 0 <= i < out.len() implies (#[trigger] out[i]).id < next.next_id by {}
}

/// An update keeps the state in order.
pub proof fn lemma_renewed_wf(
    state: StateView,
    id: u64,
    now: u64,
    info: Option<InfoView>,
    players: bool,
)
    requires
        state.wf(),
    ensures
        state.with_renewed(id, now, info, players).wf(),
{
    let out = state.with_renewed(id, now, info, players).sessions;
    assert(forall|i: int|
        0 <= i < out.len() ==> (#[trigger] out[i]).id == state.sessions[i].id && out[i].owner
            == state.sessions[i].owner);
}

/// A withdrawal keeps the state in order.
proof fn lemma_withdrawn_wf(state: StateView, id: u64)
    requires
        state.wf(),
    ensures
        state.with_withdrawn(id).wf(),
{
    lemma_filter_consistent(state.sessions, |s: StoredView| s.id != id);
    let out = without_id(state.sessions, id);
    assert forall|i: int| 0 <= i < out.len() implies (#[trigger] out[i]).id < state.next_id by {
        let k = choose|k: int| 0 <= k < state.sessions.len() && state.sessions[k] == out[i];
        assert(state.sessions[k].id == out[i].id);
    }
}

/// What a filter leaves of consistent lobbies is consistent.
pub proof fn lemma_filter_consistent(s: Seq<StoredView>, pred: spec_fn(StoredView) -> bool)
    ensures
        consistent(s) ==> consistent(s.filter(pred)),
        forall|i: int|
            0 <= i < s.filter(pred).len() ==> s.contains(#[trigger] s.filter(pred)[i]) && pred(
                s.filter(pred)[i],
            ),
    decreases s.len(),
{
    lemma_filter_members(s, pred);
    if s.len() > 0 {
        let init = s.drop_last();
        let last = s.last();
        lemma_filter_consistent(init, pred);
        lemma_filter_push(init, last, pred);
        assert(s =~= init.push(last));
        let kept = init.filter(pred);
        let out = s.filter(pred);
        assert(consistent(s) ==> consistent(init)) by {
            assert(forall|i: int| 0 <= i < init.len() ==> #[trigger] init[i] == s[i]);
        }
        if consistent(s) && pred(last) {
            assert forall|i: int| 0 <= i < kept.len() implies (#[trigger] kept[i]).id != last.id && (
            kept[i].owner is Some ==> kept[i].owner != last.owner) by {
                let k = choose|k: int| 0 <= k < init.len() && init[k] == kept[i];
                assert(s[k] == kept[i]);
                assert(s[s.len() - 1] == last);
            }
            assert(out == kept.push(last));
            assert(consistent(out));
        }
    } else {
        assert(s.filter(pred) =~= s) by {
            reveal(Seq::filter);
        }
    }
}

/// Taking note of a request keeps the state in order.
pub proof fn lemma_refreshed_wf(state: StateView, peer: Option<IpAddr>, now: u64)
    ensures
        state.wf() ==> state.refreshed(peer, now).wf(),
{
    let pred = |s: StoredView| s.alive(now);
    lemma_filter_consistent(state.sessions, pred);
    let left = living(state.sessions, now);
    let out = state.refreshed(peer, now).sessions;
    assert(forall|i: int|
        0 <= i < out.len() ==> (#[trigger] out[i]).id == left[i].id && out[i].owner
            == left[i].owner);
    if state.wf() {
        assert forall|i: int| 0 <= i < out.len() implies (#[trigger] out[i]).id < state.next_id by {
            let k = choose|k: int| 0 <= k < state.sessions.len() && state.sessions[k] == left[i];
            assert(state.sessions[k].id == out[i].id);
        }
    }
}

} // verus!
