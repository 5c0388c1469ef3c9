//! What becomes of a lobby, in terms of what its host sent.

use super::common_addr::{
    description, populated, populated_from, redirected, slot_at, slot_count, slot_text, spaced,
    unset,
};
use super::config::{lower, says_none, MatchmakingConfig};
use super::handler::{
    lemma_refreshed_wf, lemma_renewed_wf, task_of, MatchmakingTaskId, ResultView, StateView,
};
use super::info::{agreed, info_in, session_id_in, RowView, INFO_VALUES};
use super::laws::{handled, Request};
use super::query::query_playlist;
use super::search_laws::{
    heard_of, hosted_by, is_search, law_named_playlist_counts, lemma_known, lets_see, replied,
};
use super::store::{living, touched, without_id, without_owner, StoredView, BDNET_BIND_PORTS};
use crate::octets::{
    law_le_bytes_read_back, le_value, lemma_le_bytes_len, lemma_le_value_bound, lemma_radix_powers,
};
use crate::peer::{IpAddr, Peer};
use crate::sequences::{lemma_filter_members, lemma_filter_twice};
use crate::text::decimal;
use crate::wire::{after_first, Val};
use vstd::prelude::*;

verus! {

/// A description holds what was sent, value for value, and there is one exactly
/// if the eighteen values are of the right kinds.
pub proof fn law_description_is_what_was_sent(sent: Seq<Val>)
    ensures
        info_in(sent) is Some <==> {
            &&& sent.len() >= 18
            &&& sent[0] is Blob && sent[1] is U32 && sent[2] is U32 && sent[3] is U64
            &&& sent[4] is Blob && sent[13] is F32
            &&& forall|k: int| 5 <= k < 13 ==> (#[trigger] sent[k]) is I32
            &&& forall|k: int| 14 <= k < 18 ==> (#[trigger] sent[k]) is I32
        },
        info_in(sent) matches Some(info) ==> {
            &&& Val::Blob(info.common_addr) == sent[0]
            &&& Val::U32(info.field_a) == sent[1]
            &&& Val::U32(info.max_players) == sent[2]
            &&& Val::U64(info.security_id) == sent[3]
            &&& Val::Blob(info.security_key) == sent[4]
            &&& Val::F32(info.skill) == sent[13]
            &&& info.ints.len() == 8
            &&& info.tail.len() == 4
            &&& forall|k: int| 0 <= k < 8 ==> Val::I32(#[trigger] info.ints[k]) == sent[5 + k]
            &&& forall|k: int| 0 <= k < 4 ==> Val::I32(#[trigger] info.tail[k]) == sent[14 + k]
        },
{
    reveal_with_fuel(agreed, 19);
    if agreed(sent, 0) == INFO_VALUES {
        assert(sent[5] is I32 && sent[6] is I32 && sent[7] is I32 && sent[8] is I32);
        assert(sent[9] is I32 && sent[10] is I32 && sent[11] is I32 && sent[12] is I32);
        assert(sent[14] is I32 && sent[15] is I32 && sent[16] is I32 && sent[17] is I32);
    }
}

/// A lobby is registered with the playlist that stands in its description, the
/// sixth of its eight numbers, if that is between 1 and 999, whatever its owner
/// searched for before; and else with what its owner searched for last, if that is
/// known.
pub proof fn law_registered_playlist(state: StateView, request: Request, i: int)
    requires
        state.wf(),
        request.registers(),
        0 <= i < handled(state, request).sessions.len(),
        handled(state, request).sessions[i].id == state.next_id,
    ensures
        ({
            let number = request.rest[10]->I32_0;
            let lobby = handled(state, request).sessions[i];
            &&& 1 <= number <= 999 ==> lobby.playlist == Some(number)
            &&& !(1 <= number <= 999) && request.ip is Some && state.last_query.contains_key(
                request.ip->Some_0,
            ) ==> lobby.playlist == Some(state.last_query[request.ip->Some_0])
            &&& !(1 <= number <= 999) && !(request.ip is Some && state.last_query.contains_key(
                request.ip->Some_0,
            )) ==> lobby.playlist is None
        }),
{
    let out = handled(state, request).sessions;
    law_description_is_what_was_sent(request.rest);
    let info = info_in(request.rest)->Some_0;
    assert(Val::I32(info.ints[5]) == request.rest[10]);
    lemma_known(state, request.ip, request.now);
    let known = state.refreshed(request.ip, request.now);
    lemma_filter_members(known.sessions, |s: StoredView| !s.owned_by(request.ip));
    if i < out.len() - 1 {
        let kept = without_owner(known.sessions, request.ip);
        assert(out[i] == kept[i]);
        assert(known.sessions.contains(kept[i]));
        let l = choose|l: int| 0 <= l < known.sessions.len() && known.sessions[l] == kept[i];
        let k = choose|k: int|
            0 <= k < state.sessions.len() && heard_of(#[trigger] state.sessions[k], request.now)
                && known.sessions[l] == (if hosted_by(state.sessions[k], request.ip) {
                StoredView { updated: request.now, ..state.sessions[k] }
            } else {
                state.sessions[k]
            });
        assert(state.sessions[k].id < state.next_id);
    }
}

/// Whether a request updates the lobby with an id.
pub open spec fn updates(request: Request, id: u64) -> bool {
    &&& request.task == Some(MatchmakingTaskId::UpdateSession) || request.task == Some(
        MatchmakingTaskId::UpdateSessionPlayers,
    )
    &&& session_id_in(request.rest) == Some(id)
}

/// What an update leaves of the lobby that it names.
proof fn lemma_updated(state: StateView, request: Request, k: int, i: int)
    requires
        state.wf(),
        0 <= k < state.sessions.len(),
        heard_of(state.sessions[k], request.now),
        updates(request, state.sessions[k].id),
        0 <= i < handled(state, request).sessions.len(),
        handled(state, request).sessions[i].id == state.sessions[k].id,
    ensures
        handled(state, request).sessions[i] == state.renewed(
            state.sessions[k],
            request.now,
            info_in(after_first(request.rest)),
            request.task == Some(MatchmakingTaskId::UpdateSessionPlayers),
        ),
{
    let known = state.refreshed(request.ip, request.now);
    let id = state.sessions[k].id;
    lemma_known(state, request.ip, request.now);
    let m = choose|m: int|
        0 <= m < state.sessions.len() && heard_of(#[trigger] state.sessions[m], request.now)
            && known.sessions[i] == (if hosted_by(state.sessions[m], request.ip) {
            StoredView { updated: request.now, ..state.sessions[m] }
        } else {
            state.sessions[m]
        });
    assert(known.sessions[i].id == id);
    assert(state.sessions[m].id == state.sessions[k].id);
    assert(m == k);
}

/// An update that carries a description replaces the whole description of the
/// lobby by it, and its playlist by the number in it, if that is between 1 and 999,
/// else by what its owner searched for last, if that is known. It keeps everything
/// else but the time, and that the lobby has players once its roster changed.
pub proof fn law_update_takes_the_description(state: StateView, request: Request, k: int, i: int)
    requires
        state.wf(),
        0 <= k < state.sessions.len(),
        heard_of(state.sessions[k], request.now),
        updates(request, state.sessions[k].id),
        info_in(request.rest.skip(1)) is Some,
        0 <= i < handled(state, request).sessions.len(),
        handled(state, request).sessions[i].id == state.sessions[k].id,
    ensures
        ({
            let before = state.sessions[k];
            let lobby = handled(state, request).sessions[i];
            let number = request.rest[11]->I32_0;
            let searched = before.owner is Some && state.last_query.contains_key(
                before.owner->Some_0,
            );
            &&& lobby.info == info_in(request.rest.skip(1))->Some_0
            &&& lobby.owner == before.owner
            &&& lobby.updated == request.now
            &&& request.task == Some(MatchmakingTaskId::UpdateSession) ==> lobby.has_players
                == before.has_players
            &&& request.task == Some(MatchmakingTaskId::UpdateSessionPlayers) ==> lobby.has_players
            &&& 1 <= number <= 999 ==> lobby.playlist == Some(number)
            &&& !(1 <= number <= 999) && searched ==> lobby.playlist == Some(
                state.last_query[before.owner->Some_0],
            )
            &&& !(1 <= number <= 999) && !searched ==> lobby.playlist == before.playlist
        }),
{
    assert(request.rest.skip(1) =~= after_first(request.rest));
    law_description_is_what_was_sent(request.rest.skip(1));
    let info = info_in(request.rest.skip(1))->Some_0;
    assert(Val::I32(info.ints[5]) == request.rest.skip(1)[10]);
    lemma_updated(state, request, k, i);
}

/// An update without a description leaves description and playlist as they were.
pub proof fn law_update_without_description(state: StateView, request: Request, k: int, i: int)
    requires
        state.wf(),
        0 <= k < state.sessions.len(),
        heard_of(state.sessions[k], request.now),
        updates(request, state.sessions[k].id),
        info_in(request.rest.skip(1)) is None,
        0 <= i < handled(state, request).sessions.len(),
        handled(state, request).sessions[i].id == state.sessions[k].id,
    ensures
        ({
            let before = state.sessions[k];
            let lobby = handled(state, request).sessions[i];
            &&& lobby.info == before.info
            &&& lobby.playlist == before.playlist
            &&& lobby.owner == before.owner
            &&& lobby.updated == request.now
            &&& request.task == Some(MatchmakingTaskId::UpdateSession) ==> lobby.has_players
                == before.has_players
            &&& request.task == Some(MatchmakingTaskId::UpdateSessionPlayers) ==> lobby.has_players
        }),
{
    assert(request.rest.skip(1) =~= after_first(request.rest));
    lemma_updated(state, request, k, i);
}

/// The lobby that an update names is still there afterwards, if it was heard of
/// lately, and it is the only one with its id.
pub proof fn law_updated_lobby_stays(state: StateView, request: Request, k: int)
    requires
        state.wf(),
        0 <= k < state.sessions.len(),
        heard_of(state.sessions[k], request.now),
        updates(request, state.sessions[k].id),
    ensures
        exists|i: int|
            0 <= i < handled(state, request).sessions.len() && (#[trigger] handled(
                state,
                request,
            ).sessions[i]).id == state.sessions[k].id,
        handled(state, request).wf(),
{
    lemma_known(state, request.ip, request.now);
    let known = state.refreshed(request.ip, request.now);
    let s = if hosted_by(state.sessions[k], request.ip) {
        StoredView { updated: request.now, ..state.sessions[k] }
    } else {
        state.sessions[k]
    };
    assert(known.sessions.contains(s));
    let l = choose|l: int| 0 <= l < known.sessions.len() && known.sessions[l] == s;
    assert(handled(state, request).sessions[l].id == state.sessions[k].id);
    lemma_refreshed_wf(state, request.ip, request.now);
    lemma_renewed_wf(
        known,
        state.sessions[k].id,
        request.now,
        info_in(after_first(request.rest)),
        request.task == Some(MatchmakingTaskId::UpdateSessionPlayers),
    );
}

/// A description that an update carried is what a later search for its playlist by
/// somebody else is answered with, under the id of the lobby.
pub proof fn law_search_shows_the_update(
    state: StateView,
    update: Request,
    k: int,
    config: MatchmakingConfig,
    peer: Option<Peer>,
    search: Request,
)
    requires
        state.wf(),
        0 <= k < state.sessions.len(),
        heard_of(state.sessions[k], update.now),
        updates(update, state.sessions[k].id),
        info_in(update.rest.skip(1)) is Some,
        1 <= update.rest[11]->I32_0 <= 999,
        is_search(peer, search),
        !config.asymmetric,
        lets_see(config, peer),
        query_playlist(search.raw) == Some(update.rest[11]->I32_0),
        search.now - update.now < 240_000_000_000,
        search.ip is None || search.ip != state.sessions[k].owner,
    ensures
        exists|j: int|
            0 <= j < replied(handled(state, update), config, peer, search).len() && (
            #[trigger] replied(handled(state, update), config, peer, search)[j]) is Row && replied(
                handled(state, update),
                config,
                peer,
                search,
            )[j]->Row_0.id == state.sessions[k].id && replied(
                handled(state, update),
                config,
                peer,
                search,
            )[j]->Row_0.info == info_in(update.rest.skip(1))->Some_0,
{
    let after = handled(state, update);
    law_updated_lobby_stays(state, update, k);
    let i = choose|i: int|
        0 <= i < after.sessions.len() && (#[trigger] after.sessions[i]).id == state.sessions[k].id;
    law_update_takes_the_description(state, update, k, i);
    law_named_playlist_counts(after, config, peer, search, update.rest[11]->I32_0);
    assert(heard_of(after.sessions[i], search.now));
    assert(!hosted_by(after.sessions[i], search.ip));
}

/// A withdrawn lobby is gone.
pub proof fn law_deleted_lobby_is_gone(state: StateView, request: Request, i: int)
    requires
        request.task == Some(MatchmakingTaskId::DeleteSession),
        session_id_in(request.rest) is Some,
        0 <= i < handled(state, request).sessions.len(),
    ensures
        handled(state, request).sessions[i].id != session_id_in(request.rest)->Some_0,
{
    let known = state.refreshed(request.ip, request.now);
    let id = session_id_in(request.rest)->Some_0;
    lemma_filter_members(known.sessions, |s: StoredView| s.id != id);
    assert(handled(state, request).sessions == without_id(known.sessions, id));
}

/// The session id that a request names is spelled by the first eight bytes of its
/// first value, the least significant first.
pub proof fn law_named_id(rest: Seq<Val>)
    ensures
        session_id_in(rest) is Some <==> rest.len() > 0 && rest[0] is Blob
            && rest[0]->Blob_0.len() >= 8,
        session_id_in(rest) matches Some(id) ==> id as nat == le_value(rest[0]->Blob_0.take(8)),
{
    if session_id_in(rest) is Some {
        lemma_le_value_bound(rest[0]->Blob_0.take(8));
        lemma_radix_powers();
    }
}

/// Every lobby after a request was there before, heard of lately and with the same
/// owner, or is the one that the request registers.
pub proof fn law_nothing_else_appears(state: StateView, request: Request, i: int)
    requires
        0 <= i < handled(state, request).sessions.len(),
    ensures
        ({
            let lobby = handled(state, request).sessions[i];
            ||| request.registers() && lobby.id == state.next_id && lobby.owner == request.ip
                && lobby.updated == request.now && lobby.info == info_in(request.rest)->Some_0
            ||| exists|k: int|
                0 <= k < state.sessions.len() && heard_of(
                    #[trigger] state.sessions[k],
                    request.now,
                ) && lobby.id == state.sessions[k].id && lobby.owner == state.sessions[k].owner
        }),
{
    let known = state.refreshed(request.ip, request.now);
    let out = handled(state, request).sessions;
    lemma_known(state, request.ip, request.now);
    lemma_filter_members(known.sessions, |s: StoredView| !s.owned_by(request.ip));
    if let Some(id) = session_id_in(request.rest) {
        lemma_filter_members(known.sessions, |s: StoredView| s.id != id);
    }
    if !(request.registers() && i == out.len() - 1) {
        let l: int = if request.registers() {
            let kept = without_owner(known.sessions, request.ip);
            assert(out[i] == kept[i]);
            assert(known.sessions.contains(kept[i]));
            choose|l: int| 0 <= l < known.sessions.len() && known.sessions[l] == kept[i]
        } else if request.task == Some(MatchmakingTaskId::DeleteSession) && session_id_in(
            request.rest,
        ) is Some {
            assert(known.sessions.contains(out[i]));
            choose|l: int| 0 <= l < known.sessions.len() && known.sessions[l] == out[i]
        } else {
            i
        };
        assert(known.sessions[l].id == out[i].id && known.sessions[l].owner == out[i].owner);
        let k = choose|k: int|
            0 <= k < state.sessions.len() && heard_of(#[trigger] state.sessions[k], request.now)
                && known.sessions[l] == (if hosted_by(state.sessions[k], request.ip) {
                StoredView { updated: request.now, ..state.sessions[k] }
            } else {
                state.sessions[k]
            });
        assert(out[i].id == state.sessions[k].id);
    }
}

/// A search that names a playlist is remembered for the client's address, in place
/// of any earlier one; nothing else touches what was searched for.
pub proof fn law_searches_are_remembered(state: StateView, request: Request)
    ensures
        ({
            let remembers = request.ip is Some && query_playlist(request.raw) is Some && (
            request.task == Some(MatchmakingTaskId::FindSessions) || request.task == Some(
                MatchmakingTaskId::FindSessionsPaged,
            ));
            let after = handled(state, request).last_query;
            &&& remembers ==> after == state.last_query.insert(
                request.ip->Some_0,
                query_playlist(request.raw)->Some_0,
            )
            &&& !remembers ==> after == state.last_query
        }),
{
}

/// A lobby can be reached directly exactly if the port of the first address behind
/// the local slot of its block is one of the two that consoles bind; slots are six
/// bytes, four of an address and two of a port, and one with the address
/// 0.255.0.255 is not set.
pub proof fn law_reachable_by_its_block(lobby: StoredView, i: int)
    requires
        1 <= i < 6,
        6 * i + 6 <= lobby.info.common_addr.len(),
        forall|j: int| 1 <= j < i ==> blank_slot(lobby.info.common_addr, j),
        !blank_slot(lobby.info.common_addr, i),
    ensures
        ({
            let block = lobby.info.common_addr;
            let port = block[6 * i + 4] + 256 * block[6 * i + 5];
            lobby.reachable() <==> port == 3074 || port == 30000
        }),
{
    let block = lobby.info.common_addr;
    lemma_first_set(block, 1, i);
    let slot = slot_at(block, i);
    let bytes = slot.subrange(4, 6);
    reveal_with_fuel(le_value, 3);
    assert(bytes.drop_first().drop_first() =~= Seq::<u8>::empty());
    assert(bytes[0] == block[6 * i + 4] && bytes.drop_first()[0] == block[6 * i + 5]);
    assert(BDNET_BIND_PORTS@[0] == 3074);
    assert(BDNET_BIND_PORTS@[1] == 30000);
}

/// Whether a slot of an address block is not set.
pub open spec fn blank_slot(block: Seq<u8>, i: int) -> bool {
    block[6 * i] == 0 && block[6 * i + 1] == 255 && block[6 * i + 2] == 0 && block[6 * i + 3] == 255
}

proof fn lemma_first_set(block: Seq<u8>, from: nat, i: int)
    requires
        from <= i < 6,
        6 * i + 6 <= block.len(),
        forall|j: int| from <= j < i ==> blank_slot(block, j),
        !blank_slot(block, i),
    ensures
        populated_from(block, from).len() > 0,
        populated_from(block, from)[0] == slot_at(block, i),
    decreases i - from,
{
    assert(i < slot_count(block));
    if from < i {
        assert(blank_slot(block, from as int));
        assert(unset(slot_at(block, from as int)));
        lemma_first_set(block, from + 1, i);
    }
}

/// A lobby whose block sets no complete slot behind the local one cannot be reached
/// directly.
pub proof fn law_unreachable_without_an_address(lobby: StoredView)
    requires
        forall|j: int|
            1 <= j < 6 && 6 * j + 6 <= lobby.info.common_addr.len() ==> blank_slot(
                lobby.info.common_addr,
                j,
            ),
    ensures
        !lobby.reachable(),
{
    lemma_none_set(lobby.info.common_addr, 1);
}

proof fn lemma_none_set(block: Seq<u8>, from: nat)
    requires
        1 <= from,
        forall|j: int| 1 <= j < 6 && 6 * j + 6 <= block.len() ==> blank_slot(block, j),
    ensures
        populated_from(block, from).len() == 0,
    decreases slot_count(block) - from,
{
    if from < slot_count(block) {
        assert(blank_slot(block, from as int));
        lemma_none_set(block, from + 1);
    }
}

/// What a block looks like once it is redirected: each complete slot that is set is
/// the new one, and every other byte is as it was.
pub proof fn law_redirect_by_bytes(block: Seq<u8>, slot: Seq<u8>, k: int)
    requires
        0 <= k < block.len(),
        slot.len() == 6,
    ensures
        ({
            let out = redirected(block, slot);
            let i = k / 6;
            &&& out.len() == block.len()
            &&& i < 6 && 6 * i + 6 <= block.len() && !blank_slot(block, i) ==> out[k] == slot[k % 6]
            &&& i >= 6 || 6 * i + 6 > block.len() || blank_slot(block, i) ==> out[k] == block[k]
        }),
{
    let i = k / 6;
    if i < slot_count(block) {
        let s = slot_at(block, i);
        assert(s[0] == block[6 * i] && s[1] == block[6 * i + 1] && s[2] == block[6 * i + 2] && s[3]
            == block[6 * i + 3]);
    }
}

/// What a row hands out: an address block, the id, a zero, and then what the host
/// announced, value for value, but for the security id where that is withheld.
pub proof fn law_row_by_values(
    announcement: Seq<Val>,
    row: RowView,
    zero_sec_id: bool,
)
    requires
        info_in(announcement) == Some(row.info),
    ensures
        ({
            let values = row.values(zero_sec_id);
            &&& values.len() == 20
            &&& row.sink is None ==> values[0] == announcement[0]
            &&& row.sink matches Some(slot) ==> values[0] == Val::Blob(
                redirected(announcement[0]->Blob_0, slot@),
            )
            &&& values[1] is Blob && values[1]->Blob_0.len() == 8 && le_value(values[1]->Blob_0)
                == row.id
            &&& values[2] == Val::U32(0)
            &&& values[3] == announcement[1]
            &&& values[4] == announcement[2]
            &&& values[5] == (if zero_sec_id {
                Val::U64(0)
            } else {
                announcement[3]
            })
            &&& forall|k: int| 6 <= k < 20 ==> #[trigger] values[k] == announcement[k - 2]
        }),
{
    law_description_is_what_was_sent(announcement);
    lemma_le_bytes_len(row.id as nat, 8);
    lemma_radix_powers();
    law_le_bytes_read_back(row.id as nat, 8);
    let values = row.values(zero_sec_id);
    assert forall|k: int| 6 <= k < 20 implies #[trigger] values[k] == announcement[k - 2] by {
        if 7 <= k < 15 {
            assert(values[k] == Val::I32(row.info.ints[k - 7]));
        } else if 16 <= k {
            assert(values[k] == Val::I32(row.info.tail[k - 16]));
        }
    }
}

/// Which task a number asks for.
pub proof fn law_task_numbers(value: u8)
    ensures
        ({
            let task = task_of(value);
            &&& value == 1 <==> task == Some(MatchmakingTaskId::CreateSession)
            &&& value == 2 <==> task == Some(MatchmakingTaskId::UpdateSession)
            &&& value == 3 <==> task == Some(MatchmakingTaskId::DeleteSession)
            &&& value == 5 <==> task == Some(MatchmakingTaskId::FindSessions)
            &&& value == 12 <==> task == Some(MatchmakingTaskId::UpdateSessionPlayers)
            &&& value == 13 <==> task == Some(MatchmakingTaskId::FindSessionsPaged)
            &&& value == 14 <==> task == Some(MatchmakingTaskId::FindSessionsByEntityIds)
            &&& value == 15 <==> task == Some(MatchmakingTaskId::FindSessionsFromIds)
        }),
{
}

/// A registration leaves the lobbies of others that were heard of lately, as they
/// were and in their order, and behind them the new one: with the next id, of the
/// client, with the description that was sent, heard of now, and with players exactly
/// if the client hosted one with players until now. The next id is one higher.
pub proof fn law_registration_by_what_is_held(state: StateView, request: Request)
    requires
        state.wf(),
        request.registers(),
        state.next_id < u64::MAX,
    ensures
        ({
            let after = handled(state, request);
            let lobby = after.sessions.last();
            &&& after.sessions.len() > 0
            &&& after.sessions.drop_last() == state.sessions.filter(
                |s: StoredView| heard_of(s, request.now) && !hosted_by(s, request.ip),
            )
            &&& after.next_id == state.next_id + 1
            &&& after.last_query == state.last_query
            &&& lobby.id == state.next_id
            &&& lobby.owner == request.ip
            &&& lobby.updated == request.now
            &&& Some(lobby.info) == info_in(request.rest)
            &&& lobby.has_players <==> exists|k: int|
                0 <= k < state.sessions.len() && hosted_by(
                    #[trigger] state.sessions[k],
                    request.ip,
                ) && heard_of(state.sessions[k], request.now) && state.sessions[k].has_players
        }),
{
    let ip = request.ip;
    let now = request.now;
    let known = state.refreshed(ip, now);
    let after = handled(state, request);
    let lobby = after.sessions.last();
    let left = living(state.sessions, now);
    let foreign = |s: StoredView| !s.owned_by(ip);
    let both = |s: StoredView| heard_of(s, now) && !hosted_by(s, ip);
    lemma_filter_twice(state.sessions, |s: StoredView| s.alive(now), foreign, both);
    lemma_foreign_untouched(left, ip, now);
    assert(after.sessions.drop_last() =~= state.sessions.filter(both));
    lemma_known(state, ip, now);
    if lobby.has_players {
        let l = choose|l: int|
            0 <= l < known.sessions.len() && (#[trigger] known.sessions[l]).owned_by(ip)
                && known.sessions[l].has_players;
        let k = choose|k: int|
            0 <= k < state.sessions.len() && heard_of(#[trigger] state.sessions[k], now)
                && known.sessions[l] == (if hosted_by(state.sessions[k], ip) {
                StoredView { updated: now, ..state.sessions[k] }
            } else {
                state.sessions[k]
            });
        assert(hosted_by(state.sessions[k], ip) && state.sessions[k].has_players);
    }
    if exists|k: int|
        0 <= k < state.sessions.len() && hosted_by(#[trigger] state.sessions[k], ip) && heard_of(
            state.sessions[k],
            now,
        ) && state.sessions[k].has_players {
        let k = choose|k: int|
            0 <= k < state.sessions.len() && hosted_by(#[trigger] state.sessions[k], ip)
                && heard_of(state.sessions[k], now) && state.sessions[k].has_players;
        let s = StoredView { updated: now, ..state.sessions[k] };
        assert(known.sessions.contains(s));
        let l = choose|l: int| 0 <= l < known.sessions.len() && known.sessions[l] == s;
        assert(known.sessions[l].owned_by(ip) && known.sessions[l].has_players);
    }
}

/// What a client's request does to the times of lobbies does not show once its own
/// ones are left out.
proof fn lemma_foreign_untouched(sessions: Seq<StoredView>, ip: Option<IpAddr>, now: u64)
    ensures
        touched(sessions, ip, now).filter(|s: StoredView| !s.owned_by(ip)) == sessions.filter(
            |s: StoredView| !s.owned_by(ip),
        ),
    decreases sessions.len(),
{
    reveal(Seq::filter);
    if sessions.len() > 0 {
        let init = sessions.drop_last();
        lemma_foreign_untouched(init, ip, now);
        assert(touched(sessions, ip, now).drop_last() =~= touched(init, ip, now));
    } else {
        assert(touched(sessions, ip, now).filter(|s: StoredView| !s.owned_by(ip))
            =~= sessions.filter(|s: StoredView| !s.owned_by(ip)));
    }
}

/// Only registrations and searches are answered with results: a registration with
/// the id of the new lobby, if the switches say so.
pub proof fn law_results_by_task(
    state: StateView,
    config: MatchmakingConfig,
    peer: Option<Peer>,
    request: Request,
)
    ensures
        ({
            let results = replied(state, config, peer, request);
            &&& request.registers() && config.reply_with_id ==> results == seq![
                ResultView::SessionId(state.next_id),
            ]
            &&& request.registers() && !config.reply_with_id ==> results.len() == 0
            &&& !request.registers() && request.task != Some(MatchmakingTaskId::FindSessions)
                && request.task != Some(MatchmakingTaskId::FindSessionsPaged) ==> results.len() == 0
        }),
{
}

/// The setting that keeps the id back is the word `none`, each letter in either
/// case.
pub proof fn law_none_in_either_case(setting: Seq<char>)
    ensures
        says_none(setting) <==> setting.len() == 4 && (setting[0] == 'n' || setting[0] == 'N') && (
        setting[1] == 'o' || setting[1] == 'O') && (setting[2] == 'n' || setting[2] == 'N') && (
        setting[3] == 'e' || setting[3] == 'E'),
{
    let lowered = setting.map_values(|c: char| lower(c));
    if lowered == seq!['n', 'o', 'n', 'e'] {
        assert(lowered.len() == 4);
        assert(lowered[0] == 'n' && lowered[1] == 'o' && lowered[2] == 'n' && lowered[3] == 'e');
        assert(lowered[0] == lower(setting[0]) && lowered[1] == lower(setting[1]) && lowered[2]
            == lower(setting[2]) && lowered[3] == lower(setting[3]));
    }
    if setting.len() == 4 && (setting[0] == 'n' || setting[0] == 'N') && (setting[1] == 'o'
        || setting[1] == 'O') && (setting[2] == 'n' || setting[2] == 'N') && (setting[3] == 'e'
        || setting[3] == 'E') {
        assert(lowered =~= seq!['n', 'o', 'n', 'e']);
    }
}

/// A slot is written as the four octets with points between them, a colon and the
/// port, the least significant byte of which comes first; slots that are set are
/// written one after the other, with a space between them, and a block without any
/// as `none`.
pub proof fn law_description_by_bytes(slot: Seq<u8>, parts: Seq<Seq<u8>>, block: Seq<u8>)
    requires
        slot.len() == 6,
        parts.len() > 0,
    ensures
        slot_text(slot) == decimal(slot[0] as nat) + "."@ + decimal(slot[1] as nat) + "."@
            + decimal(slot[2] as nat) + "."@ + decimal(slot[3] as nat) + ":"@ + decimal(
            (slot[4] + 256 * slot[5]) as nat,
        ),
        spaced(seq![slot]) == slot_text(slot),
        spaced(parts.push(slot)) == spaced(parts) + " "@ + slot_text(slot),
        populated(block).len() == 0 ==> description(block) == "none"@,
        populated(block).len() > 0 ==> description(block) == spaced(populated(block)),
{
    reveal_strlit(".");
    reveal_strlit(":");
    reveal_strlit(" ");
    reveal_strlit("none");
    let bytes = slot.subrange(4, 6);
    reveal_with_fuel(le_value, 3);
    assert(bytes.drop_first().drop_first() =~= Seq::<u8>::empty());
    assert(bytes[0] == slot[4] && bytes.drop_first()[0] == slot[5]);
    assert("."@ =~= seq!['.']);
    assert(":"@ =~= seq![':']);
    assert(" "@ =~= seq![' ']);
    assert("none"@ =~= seq!['n', 'o', 'n', 'e']);
    assert(parts.push(slot).drop_last() =~= parts);
}

/// The slots of a block that are set, one by one: each complete one of the first six
/// whose address is not 0.255.0.255, in order.
pub proof fn law_slots_by_bytes(block: Seq<u8>, i: nat)
    ensures
        i >= 6 || 6 * i + 6 > block.len() ==> populated_from(block, i).len() == 0,
        i < 6 && 6 * i + 6 <= block.len() && blank_slot(block, i as int) ==> populated_from(
            block,
            i,
        ) == populated_from(block, i + 1),
        i < 6 && 6 * i + 6 <= block.len() && !blank_slot(block, i as int) ==> populated_from(
            block,
            i,
        ) == seq![block.subrange(6 * (i as int), 6 * (i as int) + 6)] + populated_from(block, i + 1),
        populated(block) == populated_from(block, 0),
{
    if i < 6 && 6 * i + 6 <= block.len() {
        let s = slot_at(block, i as int);
        let k = 6 * (i as int);
        assert(s[0] == block[k] && s[1] == block[k + 1] && s[2] == block[k + 2] && s[3] == block[k
            + 3]);
    }
}

} // verus!
