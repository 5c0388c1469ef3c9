//! The entrance of the lobby: a client shows the proof that it was given and gets
//! a connection id.

use crate::auth::auth_proof::{ClientOpaqueAuthProof, ProofView};
use crate::auth::pid::{
    dwid, dwid_of, law_dwid_holds_pid, pid_of, recall_peer, session_key, username, username_of,
    wiiu_session_key, DEFAULT_PID, DWID_BASE,
};
use crate::auth::token::{lemma_pid_bound, pid_in};
use crate::auth::wiiu::{pids_after, WiiUAuthHandler, TICKET_ISSUE_LENGTH};
use crate::clock::{unix_time, TIME_LIMIT};
use crate::peer::{AddrMap, IpAddr};
use crate::session::{AuthenticationView, BdSession, SessionAuthentication, Title, TitleSet};
use crate::wire::{
    after_first, next_raw, next_type_checked_bit, next_u32, read_error, BdMessage, BdReadError, Val,
};
use vstd::prelude::*;

verus! {

/// The length of a sealed proof.
pub const SEALED_PROOF_LEN: usize = 128;

/// Lets clients into the lobby.
pub struct LsgHandler {
    titles: TitleSet,
}

/// Why a client is not let in.
#[derive(Debug, Copy, Clone, PartialEq, Eq, Structural)]
pub enum LobbyServiceError {
    /// The request breaks off or holds something else than it should.
    Unreadable { reason: BdReadError },
    /// The title id is unknown.
    UnknownTitle { title_id: u32 },
    /// The client was authenticated for another title.
    InvalidTitle { specified_title: Title, authenticated_title: Title },
    /// The authentication has expired.
    AuthenticationExpired { expires: i64, now: i64 },
    /// The proof could not be unsealed.
    UnsealableProof,
}

/// Tells a client the id of its connection.
#[derive(Debug, Copy, Clone, PartialEq, Eq, Structural)]
pub struct ConnectionIdResponse {
    pub connection_id: u64,
}

/// A request to be let in, as it was read.
pub struct LsgRequest {
    pub title: Title,
    pub sealed_proof: Vec<u8>,
}

/// What becomes of a request.
pub enum LsgStep {
    /// The client is in.
    Connected { response: ConnectionIdResponse },
    /// The proof has to be unsealed first; [`LsgHandler::resume`] goes on from
    /// there.
    Unseal { request: LsgRequest },
}

/// A request, as a mathematical value.
pub ghost struct RequestView {
    pub title: Title,
    pub sealed_proof: Seq<u8>,
}

impl View for LsgRequest {
    type V = RequestView;

    open spec fn view(&self) -> RequestView {
        RequestView { title: self.title, sealed_proof: self.sealed_proof@ }
    }
}

/// What a request is that cannot be read on from here.
pub open spec fn unreadable<T>(rest: Seq<Val>) -> Result<T, LobbyServiceError> {
    Err(LobbyServiceError::Unreadable { reason: read_error(rest) })
}

/// The request that the values of a message spell: the tag bit, the title, a
/// seed, and the sealed proof.
pub open spec fn request_in(titles: TitleSet, values: Seq<Val>) -> Result<
    RequestView,
    LobbyServiceError,
> {
    let at_title = after_first(values);
    let at_seed = after_first(at_title);
    let at_proof = after_first(at_seed);
    if next_type_checked_bit(values) is None {
        unreadable(values)
    } else {
        match next_u32(at_title) {
            None => unreadable(at_title),
            Some(title_id) => match titles.title_of(title_id) {
                None => Err(LobbyServiceError::UnknownTitle { title_id }),
                Some(title) => if next_u32(at_seed) is None {
                    unreadable(at_seed)
                } else {
                    match next_raw(at_proof) {
                        Some(bytes) => if bytes.len() == SEALED_PROOF_LEN {
                            Ok(RequestView { title, sealed_proof: bytes })
                        } else {
                            unreadable(at_proof)
                        },
                        None => unreadable(at_proof),
                    }
                },
            },
        }
    }
}

/// Whether a proof is left blank.
pub open spec fn is_blank(sealed_proof: Seq<u8>) -> bool {
    forall|i: int| 0 <= i < sealed_proof.len() ==> sealed_proof[i] == 0
}

/// What a console with a blank proof is taken to have: the identity that
/// authenticated from its address.
pub open spec fn blank_proof(
    title: Title,
    pids: Map<IpAddr, u64>,
    addr: Option<IpAddr>,
    now: i64,
) -> ProofView {
    let pid = match pid_of(pids, addr) {
        Some(pid) => pid,
        None => DEFAULT_PID,
    };
    ProofView {
        title,
        time_expires: (now + TICKET_ISSUE_LENGTH) as i64,
        license_id: pid,
        user_id: dwid_of(pid),
        session_key: wiiu_session_key(),
        username: username_of(pid),
    }
}

/// Why a proof does not let a client in, if it does not.
pub open spec fn refusal(title: Title, auth_proof: ProofView, now: i64) -> Option<
    LobbyServiceError,
> {
    if auth_proof.time_expires < now {
        Some(
            LobbyServiceError::AuthenticationExpired { expires: auth_proof.time_expires, now },
        )
    } else if auth_proof.title != title {
        Some(
            LobbyServiceError::InvalidTitle {
                specified_title: title,
                authenticated_title: auth_proof.title,
            },
        )
    } else {
        None
    }
}

/// Who a session belongs to once a proof was accepted.
pub open spec fn identity_of(auth_proof: ProofView) -> AuthenticationView {
    AuthenticationView {
        user_id: auth_proof.user_id,
        username: auth_proof.username,
        session_key: auth_proof.session_key,
        title: auth_proof.title,
    }
}

/// Who a console with a blank proof is.
pub open spec fn blank_identity(
    title: Title,
    pids: Map<IpAddr, u64>,
    addr: Option<IpAddr>,
) -> AuthenticationView {
    identity_of(blank_proof(title, pids, addr, 0))
}

/// Whether a session went from one state to the other by being shown a proof at a
/// given time, with this answer.
pub open spec fn entered(
    before: BdSession,
    after: BdSession,
    title: Title,
    auth_proof: ProofView,
    now: i64,
    answer: Result<ConnectionIdResponse, LobbyServiceError>,
) -> bool {
    match refusal(title, auth_proof, now) {
        Some(error) => answer == Err::<ConnectionIdResponse, LobbyServiceError>(error) && after
            == before,
        None => {
            &&& answer == Ok::<ConnectionIdResponse, LobbyServiceError>(
                ConnectionIdResponse { connection_id: before.id },
            )
            &&& after.id == before.id
            &&& after.peer == before.peer
            &&& after.identity() == Some(identity_of(auth_proof))
        },
    }
}

/// Whether every byte is zero.
fn all_zero(bytes: &[u8]) -> (r: bool)
    ensures
        r == is_blank(bytes@),
{
    let mut i: usize = 0;
    while i < bytes.len()
        invariant
            i <= bytes.len(),
            forall|j: int| 0 <= j < i ==> bytes@[j] == 0,
        decreases bytes.len() - i,
    {
        if bytes[i] != 0 {
            return false;
        }
        i = i + 1;
    }
    true
}

impl LsgHandler {
    /// The titles that are served.
    pub closed spec fn served(self) -> TitleSet {
        self.titles
    }

    /// Whether a request shows no proof and its title is one that does not need to.
    pub open spec fn takes_blank(self, request: RequestView) -> bool {
        is_blank(request.sealed_proof) && request.title.id == self.served().t6_wiiu_id()
    }

    /// A handler that serves the given titles.
    pub fn new(titles: TitleSet) -> (handler: LsgHandler)
        ensures
            handler.served() == titles,
    {
        LsgHandler { titles }
    }

    /// Whether a client has to be authenticated already: this is where it is.
    pub fn requires_authentication(&self) -> (r: bool)
        ensures
            !r,
    {
        false
    }

    /// Reads a request.
    pub fn read_request(&self, message: BdMessage) -> (r: Result<LsgRequest, LobbyServiceError>)
        requires
            message.reader.wf(),
        ensures
            match r {
                Ok(request) => request_in(self.served(), message.reader.rest()) == Ok::<
                    RequestView,
                    LobbyServiceError,
                >(request@),
                Err(e) => request_in(self.served(), message.reader.rest()) == Err::<
                    RequestView,
                    LobbyServiceError,
                >(e),
            },
    {
        let mut reader = message.reader;
        if let Err(reason) = reader.read_type_checked_bit() {
            return Err(LobbyServiceError::Unreadable { reason });
        }
        let title_id: u32 = match reader.read_u32() {
            Ok(title_id) => title_id,
            Err(reason) => {
                return Err(LobbyServiceError::Unreadable { reason });
            },
        };
        let title: Title = match self.titles.from_u32(title_id) {
            Some(title) => title,
            None => {
                return Err(LobbyServiceError::UnknownTitle { title_id });
            },
        };
        if let Err(reason) = reader.read_u32() {
            return Err(LobbyServiceError::Unreadable { reason });
        }
        match reader.read_bytes(SEALED_PROOF_LEN) {
            Ok(sealed_proof) => Ok(LsgRequest { title, sealed_proof }),
            Err(reason) => Err(LobbyServiceError::Unreadable { reason }),
        }
    }

    /// Builds what a console with a blank proof is taken to have.
    fn stand_in(
        &self,
        title: Title,
        pids: &AddrMap<u64>,
        addr: Option<IpAddr>,
        now: i64,
    ) -> (auth_proof: ClientOpaqueAuthProof)
        requires
            pids.wf(),
            0 <= now <= i64::MAX - TICKET_ISSUE_LENGTH,
        ensures
            auth_proof@ == blank_proof(title, pids@, addr, now),
    {
        let pid: u64 = match recall_peer(pids, addr) {
            Some(pid) => pid,
            None => DEFAULT_PID,
        };
        ClientOpaqueAuthProof {
            title,
            time_expires: now + TICKET_ISSUE_LENGTH,
            license_id: pid,
            user_id: dwid(pid),
            session_key: session_key(),
            username: username(pid),
        }
    }

    /// Lets a client in that shows a proof at a given time, in seconds since 1970,
    /// unless the proof has expired or is for another title.
    pub fn enter(
        &self,
        session: &mut BdSession,
        title: Title,
        auth_proof: ClientOpaqueAuthProof,
        now: i64,
    ) -> (answer: Result<ConnectionIdResponse, LobbyServiceError>)
        ensures
            entered(*old(session), *final(session), title, auth_proof@, now, answer),
    {
        if auth_proof.time_expires < now {
            return Err(
                LobbyServiceError::AuthenticationExpired { expires: auth_proof.time_expires, now },
            );
        }
        if auth_proof.title != title {
            return Err(
                LobbyServiceError::InvalidTitle {
                    specified_title: title,
                    authenticated_title: auth_proof.title,
                },
            );
        }
        session.set_authentication(
            SessionAuthentication {
                user_id: auth_proof.user_id,
                username: auth_proof.username,
                session_key: auth_proof.session_key,
                title: auth_proof.title,
            },
        );
        Ok(ConnectionIdResponse { connection_id: session.id })
    }

    /// Lets a client in that shows a blank proof: what it is taken to have is made
    /// out at one time and shown at another, both in seconds since 1970.
    pub fn enter_blank(
        &self,
        session: &mut BdSession,
        title: Title,
        pids: &AddrMap<u64>,
        issued: i64,
        now: i64,
    ) -> (answer: Result<ConnectionIdResponse, LobbyServiceError>)
        requires
            pids.wf(),
            0 <= issued <= i64::MAX - TICKET_ISSUE_LENGTH,
        ensures
            entered(
                *old(session),
                *final(session),
                title,
                blank_proof(title, pids@, old(session).addr(), issued),
                now,
                answer,
            ),
    {
        let addr: Option<IpAddr> = session.peer_ip();
        let auth_proof = self.stand_in(title, pids, addr, issued);
        self.enter(session, title, auth_proof, now)
    }

    /// Handles a request. A blank proof is accepted from Black Ops II on Wii U and
    /// stands for the identity that authenticated from the same address; any other
    /// proof is handed back to be unsealed.
    pub fn handle_message(
        &self,
        session: &mut BdSession,
        message: BdMessage,
        pids: &AddrMap<u64>,
    ) -> (step: Result<LsgStep, LobbyServiceError>)
        requires
            message.reader.wf(),
            pids.wf(),
        ensures
            match request_in(self.served(), message.reader.rest()) {
                Err(error) => step == Err::<LsgStep, LobbyServiceError>(error) && *final(session)
                    == *old(session),
                Ok(request) => if self.takes_blank(request) {
                    &&& step == Ok::<LsgStep, LobbyServiceError>(
                        LsgStep::Connected {
                            response: ConnectionIdResponse { connection_id: old(session).id },
                        },
                    )
                    &&& final(session).id == old(session).id
                    &&& final(session).peer == old(session).peer
                    &&& final(session).identity() == Some(
                        blank_identity(request.title, pids@, old(session).addr()),
                    )
                } else {
                    &&& step matches Ok(LsgStep::Unseal { request: pending })
                    &&& pending@ == request
                    &&& *final(session) == *old(session)
                },
            },
    {
        let request: LsgRequest = match self.read_request(message) {
            Ok(request) => request,
            Err(e) => {
                return Err(e);
            },
        };
        if all_zero(request.sealed_proof.as_slice()) && request.title == self.titles.t6_wiiu() {
            let now: i64 = unix_time();
            match self.enter_blank(session, request.title, pids, now, now) {
                Ok(response) => Ok(LsgStep::Connected { response }),
                Err(e) => Err(e),
            }
        } else {
            Ok(LsgStep::Unseal { request })
        }
    }

    /// Goes on with a request whose proof was unsealed, or could not be.
    pub fn resume(
        &self,
        session: &mut BdSession,
        request: LsgRequest,
        unsealed: Option<ClientOpaqueAuthProof>,
    ) -> (answer: Result<ConnectionIdResponse, LobbyServiceError>)
        ensures
            match unsealed {
                Some(auth_proof) => exists|now: i64|
                    #![trigger refusal(request.title, auth_proof@, now)]
                    0 <= now < TIME_LIMIT && entered(
                        *old(session),
                        *final(session),
                        request.title,
                        auth_proof@,
                        now,
                        answer,
                    ),
                None => answer == Err::<ConnectionIdResponse, LobbyServiceError>(
                    LobbyServiceError::UnsealableProof,
                ) && *final(session) == *old(session),
            },
    {
        match unsealed {
            Some(auth_proof) => {
                let now: i64 = unix_time();
                self.enter(session, request.title, auth_proof, now)
            },
            None => Err(LobbyServiceError::UnsealableProof),
        }
    }
}

/// A proof that the authentication service issued lets its client into the lobby
/// of the same title for as long as a ticket is good for, and for no other title.
pub proof fn law_issued_proof_lets_in(
    handler: WiiUAuthHandler,
    raw: Seq<u8>,
    values: Seq<Val>,
    random_seed: u32,
    issued: i64,
    title: Title,
    now: i64,
)
    requires
        0 <= issued <= i64::MAX - TICKET_ISSUE_LENGTH,
    ensures
        ({
            let auth_proof = handler.response(raw, values, random_seed, issued).auth_proof;
            refusal(title, auth_proof, now) is None <==> now <= issued + TICKET_ISSUE_LENGTH
                && title == handler.title_in(values)
        }),
{
}

/// A console that authenticated and then shows a blank proof from the same address
/// is the user with the storage identity of its own principal id, and has the
/// session key that its ticket told it, even if another console authenticated from
/// elsewhere in between.
pub proof fn law_blank_proof_is_the_same_console(
    handler: WiiUAuthHandler,
    pids: Map<IpAddr, u64>,
    ip: IpAddr,
    raw: Seq<u8>,
    values: Seq<Val>,
    random_seed: u32,
    issued: i64,
    other: Option<IpAddr>,
    other_raw: Seq<u8>,
    title: Title,
    now: i64,
)
    requires
        pid_in(raw) is Some,
        other != Some(ip),
    ensures
        ({
            let known = pids_after(pids_after(pids, Some(ip), raw), other, other_raw);
            let auth_proof = blank_proof(title, known, Some(ip), now);
            let response = handler.response(raw, values, random_seed, issued);
            &&& auth_proof.license_id == response.ticket.license_id
            &&& auth_proof.user_id == DWID_BASE + response.ticket.user_id
            &&& auth_proof.username == response.ticket.username
            &&& auth_proof.session_key == response.ticket.session_key
        }),
{
    lemma_pid_bound(raw);
    law_dwid_holds_pid(pid_in(raw)->Some_0 as u64);
}

} // verus!
