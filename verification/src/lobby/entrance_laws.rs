//! Who is let into the lobby, in terms of what the client sent and of what is known
//! of it.

use super::dml::{is_hierarchical_data, is_the_place, is_user_data, task_of, DmlResult, DmlTaskId};
use super::friends::task_in;
use super::lsg::{
    blank_identity, blank_proof, entered, refusal, request_in, ConnectionIdResponse, LobbyServiceError,
    LsgHandler, RequestView,
};
use crate::auth::auth_proof::ProofView;
use crate::peer::IpAddr;
use crate::session::{BdSession, Title, TitleSet};
use crate::text::decimal;
use crate::wire::{after_first, BdReadError, Val};
use vstd::prelude::*;

verus! {

/// Whether a value is what a request has at a place: a tag bit, the title, a seed,
/// and the sealed proof.
pub open spec fn fits(values: Seq<Val>, place: int) -> bool {
    &&& place < values.len()
    &&& place == 0 ==> values[0] is TypeChecked
    &&& place == 1 ==> values[1] is U32
    &&& place == 2 ==> values[2] is U32
    &&& place == 3 ==> values[3] is Raw && values[3]->Raw_0.len() == 128
}

/// A request is read exactly if its first four values are what they should be and
/// its title is served; it is then for that title, with that proof. Else the first
/// thing that is wrong is reported: what is missing, what is of another kind, or a
/// title that is not served.
pub proof fn law_request_by_values(titles: TitleSet, values: Seq<Val>)
    ensures
        ({
            let r = request_in(titles, values);
            let named = fits(values, 0) && fits(values, 1);
            let served = named && titles.knows(values[1]->U32_0);
            let bad = if !fits(values, 0) {
                0
            } else if !fits(values, 1) {
                1
            } else if !fits(values, 2) {
                2int
            } else {
                3
            };
            &&& r is Ok <==> served && fits(values, 2) && fits(values, 3)
            &&& r matches Ok(request) ==> request.title.id == values[1]->U32_0
                && request.sealed_proof == values[3]->Raw_0
            &&& named && !served ==> r == Err::<RequestView, LobbyServiceError>(
                LobbyServiceError::UnknownTitle { title_id: values[1]->U32_0 },
            )
            &&& !named || served && !(fits(values, 2) && fits(values, 3)) ==> r == Err::<
                RequestView,
                LobbyServiceError,
            >(
                LobbyServiceError::Unreadable {
                    reason: if bad < values.len() {
                        BdReadError::UnexpectedValue
                    } else {
                        BdReadError::EndOfMessage
                    },
                },
            )
        }),
{
    let at_title = after_first(values);
    let at_seed = after_first(at_title);
    let at_proof = after_first(at_seed);
    if values.len() > 0 {
        assert(at_title =~= values.skip(1));
    }
    if values.len() > 1 {
        assert(at_title[0] == values[1]);
        assert(at_seed =~= values.skip(2));
    }
    if values.len() > 2 {
        assert(at_seed[0] == values[2]);
        assert(at_proof =~= values.skip(3));
    }
    if values.len() > 3 {
        assert(at_proof[0] == values[3]);
    }
}

/// A client is let in exactly if its proof has not expired and is for the title that
/// it asks for. It is told the id of its session and becomes the user of the proof.
/// Else it is told why not, an expiry before anything else, and its session stays as
/// it was.
pub proof fn law_entry_by_the_proof(
    before: BdSession,
    after: BdSession,
    title: Title,
    auth_proof: ProofView,
    now: i64,
    answer: Result<ConnectionIdResponse, LobbyServiceError>,
)
    requires
        entered(before, after, title, auth_proof, now, answer),
    ensures
        answer is Ok <==> now <= auth_proof.time_expires && title == auth_proof.title,
        answer matches Ok(response) ==> {
            &&& response.connection_id == before.id
            &&& after.id == before.id
            &&& after.peer == before.peer
            &&& after.authentication matches Some(who)
            &&& who.user_id == auth_proof.user_id
            &&& who.username@ == auth_proof.username
            &&& who.session_key@ == auth_proof.session_key
            &&& who.title == auth_proof.title
        },
        answer is Err ==> after == before,
        now > auth_proof.time_expires ==> answer == Err::<ConnectionIdResponse, LobbyServiceError>(
            LobbyServiceError::AuthenticationExpired { expires: auth_proof.time_expires, now },
        ),
        now <= auth_proof.time_expires && title != auth_proof.title ==> answer == Err::<
            ConnectionIdResponse,
            LobbyServiceError,
        >(
            LobbyServiceError::InvalidTitle {
                specified_title: title,
                authenticated_title: auth_proof.title,
            },
        ),
{
}

/// A proof of zeros is taken from Black Ops II alone; one byte that is not zero, or
/// another title, and it has to be unsealed.
pub proof fn law_blank_is_all_zero(handler: LsgHandler, request: RequestView)
    ensures
        handler.takes_blank(request) ==> request.title.id == handler.served().t6_wiiu_id(),
        request.title.id == handler.served().t6_wiiu_id() && request.sealed_proof == Seq::new(
            request.sealed_proof.len(),
            |i: int| 0u8,
        ) ==> handler.takes_blank(request),
        forall|i: int|
            0 <= i < request.sealed_proof.len() && #[trigger] request.sealed_proof[i] != 0
                ==> !handler.takes_blank(request),
{
    let zeros = Seq::new(request.sealed_proof.len(), |i: int| 0u8);
    if request.sealed_proof == zeros {
        assert forall|i: int| 0 <= i < zeros.len() implies zeros[i] == 0 by {}
    }
}

/// A console with a blank proof is who authenticated from its address, or the one
/// with 1768140980 where nobody did: its user id has 0xBD00 above the principal id,
/// its name ends in the principal id, and it has the key of all consoles. It is let
/// in for the next five minutes.
pub proof fn law_blank_identity(
    title: Title,
    pids: Map<IpAddr, u64>,
    addr: Option<IpAddr>,
    issued: i64,
    now: i64,
)
    requires
        0 <= issued <= i64::MAX - 300,
    ensures
        ({
            let who = blank_identity(title, pids, addr);
            let known = addr is Some && pids.contains_key(addr->Some_0);
            let pid = if known {
                pids[addr->Some_0]
            } else {
                1_768_140_980
            };
            let auth_proof = blank_proof(title, pids, addr, issued);
            &&& who.title == title
            &&& who.user_id == 0xBD00_0000_0000u64 | pid
            &&& who.username == "WiiUUser"@ + decimal(pid as nat)
            &&& who.session_key == seq![
                0x01u8, 0x23u8, 0x45u8, 0x67u8, 0x89u8, 0xABu8, 0xCDu8, 0xEFu8,
                0xFEu8, 0xDCu8, 0xBAu8, 0x98u8, 0x76u8, 0x54u8, 0x32u8, 0x10u8,
                0x55u8, 0xAAu8, 0x55u8, 0xAAu8, 0x33u8, 0xCCu8, 0x33u8, 0xCCu8,
            ]
            &&& auth_proof.license_id == pid
            &&& auth_proof.user_id == who.user_id
            &&& auth_proof.username == who.username
            &&& auth_proof.session_key == who.session_key
            &&& refusal(title, auth_proof, now) is None <==> now <= issued + 300
        }),
{
}

/// Which place every client is told, and with which ranks.
pub proof fn law_the_place(results: Seq<DmlResult>)
    ensures
        is_user_data(results) ==> results.len() == 1 && (results[0] matches DmlResult::Info(info) && {
            &&& info.country_code@ == "US"@
            &&& info.country@ == "United States"@
            &&& info.region@ == "California"@
            &&& info.city@ == "Los Angeles"@
            &&& info.latitude_bits == 0x4208_2E63
            &&& info.longitude_bits == 0xC2EC_7B8C
        }),
        is_hierarchical_data(results) ==> results.len() == 1 && (
        results[0] matches DmlResult::Hierarchical(info) && {
            &&& is_the_place(info.base)
            &&& info.base.country_code@ == "US"@
            &&& info.base.country@ == "United States"@
            &&& info.base.region@ == "California"@
            &&& info.base.city@ == "Los Angeles"@
            &&& info.base.latitude_bits == 0x4208_2E63
            &&& info.base.longitude_bits == 0xC2EC_7B8C
            &&& info.tier0 == 0 && info.tier1 == 0 && info.tier2 == 0 && info.tier3 == 0
        }),
{
}

/// Which number asks for what.
pub proof fn law_place_tasks(value: u8)
    ensures
        value == 1 <==> task_of(value) == Some(DmlTaskId::RecordIp),
        value == 2 <==> task_of(value) == Some(DmlTaskId::GetUserData),
        value == 3 <==> task_of(value) == Some(DmlTaskId::GetUserHierarchicalData),
{
}

/// The task of a friends request is its first byte.
pub proof fn law_friends_task(first: u8, rest: Seq<u8>)
    ensures
        task_in(seq![first] + rest) == first,
        task_in(Seq::empty()) == 0,
{
}

} // verus!
