//! Authentication of Wii U consoles.

use super::auth_proof::{ClientOpaqueAuthProof, ProofView};
use super::handler::AuthHandler;
use super::message_type::AuthMessageType;
use super::pid::{
    law_username_fits, remember_pid, session_key, username, username_of, wiiu_session_key, DEFAULT_PID,
};
use super::ticket::{AuthTicket, BdAuthTicketType, TicketView, UsernameTooLongError};
use super::token::{find_pid, pid_in, token_key, token_key_from_pid};
use crate::clock::{unix_time, TIME_LIMIT};
use crate::octets::{pad_to, padded};
use crate::peer::{AddrMap, IpAddr};
use crate::session::{BdSession, Title, TitleSet};
use crate::wire::{
    after_first, next_u32, BdErrorCode, BdMessage, BdReadError, BdWriter, Val,
};
use vstd::prelude::*;
use vstd::utf8::encode_utf8;

verus! {

/// How long a ticket is good for, in seconds.
pub const TICKET_ISSUE_LENGTH: i64 = 300;

/// Answers the authentication requests of Wii U consoles.
pub struct WiiUAuthHandler {
    titles: TitleSet,
    reply_type: AuthMessageType,
}

/// The answer to a console, with its proof still to be sealed.
pub struct WiiUAuthResponse {
    pub reply_type: AuthMessageType,
    pub ticket: AuthTicket,
    pub auth_proof: ClientOpaqueAuthProof,
    pub iv_seed: u32,
    pub token_encryption_key: [u8; 24],
}

/// An answer, as a mathematical value.
pub ghost struct ResponseView {
    pub reply_type: AuthMessageType,
    pub ticket: TicketView,
    pub auth_proof: ProofView,
    pub iv_seed: u32,
    pub token_encryption_key: Seq<u8>,
}

impl View for WiiUAuthResponse {
    type V = ResponseView;

    open spec fn view(&self) -> ResponseView {
        ResponseView {
            reply_type: self.reply_type,
            ticket: self.ticket@,
            auth_proof: self.auth_proof@,
            iv_seed: self.iv_seed,
            token_encryption_key: self.token_encryption_key@,
        }
    }
}

/// The principal id that a console is taken to have.
pub open spec fn claimed_pid(raw: Seq<u8>) -> u64 {
    match pid_in(raw) {
        Some(pid) => pid as u64,
        None => DEFAULT_PID,
    }
}

/// The addresses and principal ids after a request: a principal id that the
/// request shows is remembered, if the address is known.
pub open spec fn pids_after(
    pids: Map<IpAddr, u64>,
    addr: Option<IpAddr>,
    raw: Seq<u8>,
) -> Map<IpAddr, u64> {
    match (addr, pid_in(raw)) {
        (Some(ip), Some(pid)) => pids.insert(ip, pid as u64),
        _ => pids,
    }
}

/// A time in the 32 bits that a ticket has for it.
pub open spec fn ticket_time(seconds: int) -> u32 {
    (seconds % u32::MAX as int) as u32
}

/// What is to be encrypted for the console before the answer can be completed:
/// a text, the key, and the seed of the initialisation vector.
pub struct SealRequest {
    pub seed: u32,
    pub key: [u8; 24],
    pub plaintext: Vec<u8>,
}

/// The room for the ticket in a reply. The newer reply has some to spare behind
/// the ticket.
pub open spec fn ticket_room(reply_type: AuthMessageType) -> nat {
    if reply_type == AuthMessageType::WiiUForMmpReply2 {
        0x98
    } else {
        0x80
    }
}

/// The data of an answer: the seed, the sealed proof and the encrypted ticket.
pub open spec fn auth_data(seed: u32, sealed_proof: Seq<u8>, sealed_ticket: Seq<u8>) -> Seq<Val> {
    seq![Val::U32(seed), Val::Raw(sealed_proof), Val::Raw(sealed_ticket)]
}

impl WiiUAuthResponse {
    /// The kind of message that the answer is.
    pub fn message_type(&self) -> (kind: AuthMessageType)
        ensures
            kind == self.reply_type,
    {
        self.reply_type
    }

    /// The outcome that the answer reports.
    pub fn error_code(&self) -> (code: BdErrorCode)
        ensures
            code == BdErrorCode::AuthNoError,
    {
        BdErrorCode::AuthNoError
    }

    /// Begins the data of the answer: writes the seed and says what has to be
    /// encrypted with it. [`Self::finish_auth_data`] writes the rest.
    pub fn write_auth_data(&self, writer: &mut BdWriter, seed: u32) -> (r: Result<
        SealRequest,
        UsernameTooLongError,
    >)
        ensures
            final(writer).written() == old(writer).written().push(Val::U32(seed)),
            final(writer).stream_mode() == old(writer).stream_mode(),
            final(writer).tagged() == old(writer).tagged(),
            match r {
                Ok(request) => {
                    &&& self.ticket@.name_fits()
                    &&& request.seed == seed
                    &&& request.key == self.token_encryption_key
                    &&& request.plaintext@ == padded(
                        self.ticket@.bytes(),
                        ticket_room(self.reply_type),
                    )
                    &&& request.plaintext@.len() == ticket_room(self.reply_type)
                    &&& self.ticket@.bytes().len() == 128
                },
                Err(e) => {
                    &&& !self.ticket@.name_fits()
                    &&& e.name_len == encode_utf8(self.ticket.username@).len()
                },
            },
    {
        writer.write_u32(seed);
        match self.ticket.to_bytes() {
            Ok(bytes) => {
                let mut plaintext: Vec<u8> = bytes;
                if self.reply_type == AuthMessageType::WiiUForMmpReply2 {
                    pad_to(&mut plaintext, 0x98);
                } else {
                    pad_to(&mut plaintext, 0x80);
                }
                Ok(SealRequest { seed, key: self.token_encryption_key, plaintext })
            },
            Err(e) => Err(e),
        }
    }

    /// Completes the data of the answer: the sealed proof, and behind it the
    /// encrypted ticket, which is as long as it was before.
    pub fn finish_auth_data(
        &self,
        writer: &mut BdWriter,
        sealed_proof: &[u8; 128],
        sealed_ticket: &[u8],
    )
        requires
            sealed_ticket@.len() == ticket_room(self.reply_type),
        ensures
            final(writer).written() == old(writer).written().push(Val::Raw(sealed_proof@)).push(
                Val::Raw(sealed_ticket@),
            ),
            final(writer).stream_mode() == old(writer).stream_mode(),
            final(writer).tagged() == old(writer).tagged(),
    {
        writer.write_bytes(sealed_proof.as_slice());
        writer.write_bytes(sealed_ticket);
    }
}

impl WiiUAuthHandler {
    /// The kind of message that requests are answered with.
    pub closed spec fn answers_with(self) -> AuthMessageType {
        self.reply_type
    }

    /// The titles that are served.
    pub closed spec fn served(self) -> TitleSet {
        self.titles
    }

    /// A handler that serves the given titles and answers with one kind of message.
    pub fn new(titles: TitleSet, reply_type: AuthMessageType) -> (handler: WiiUAuthHandler)
        ensures
            handler.served() == titles,
            handler.answers_with() == reply_type,
    {
        WiiUAuthHandler { titles, reply_type }
    }

    /// The title that a request names; Black Ops II where it names none that is
    /// served.
    pub open spec fn title_in(self, values: Seq<Val>) -> Title {
        let fallback = Title { id: self.served().t6_wiiu_id() };
        match next_u32(after_first(after_first(values))) {
            Some(id) => match self.served().title_of(id) {
                Some(title) => title,
                None => fallback,
            },
            None => fallback,
        }
    }

    /// The seed that a request brings, or the given one.
    pub open spec fn seed_in(self, values: Seq<Val>, random_seed: u32) -> u32 {
        match next_u32(after_first(values)) {
            Some(seed) => seed,
            None => random_seed,
        }
    }

    /// The answer to a request at a given time.
    pub open spec fn response(
        self,
        raw: Seq<u8>,
        values: Seq<Val>,
        random_seed: u32,
        now: i64,
    ) -> ResponseView {
        let pid = claimed_pid(raw);
        ResponseView {
            reply_type: self.answers_with(),
            ticket: TicketView {
                ticket_type: BdAuthTicketType::UserToService,
                title: self.title_in(values),
                time_issued: ticket_time(now as int),
                time_expires: ticket_time(now + TICKET_ISSUE_LENGTH),
                license_id: pid,
                user_id: pid,
                username: username_of(pid),
                session_key: wiiu_session_key(),
            },
            auth_proof: ProofView {
                title: self.title_in(values),
                time_expires: (now + TICKET_ISSUE_LENGTH) as i64,
                license_id: pid,
                user_id: pid,
                session_key: wiiu_session_key(),
                username: username_of(pid),
            },
            iv_seed: self.seed_in(values, random_seed),
            token_encryption_key: token_key(pid as nat),
        }
    }

    /// Answers a request that arrives at a given time, in seconds since 1970.
    pub fn respond(
        &self,
        session: &BdSession,
        message: BdMessage,
        random_seed: u32,
        now: i64,
        pids: &mut AddrMap<u64>,
    ) -> (response: WiiUAuthResponse)
        requires
            message.reader.wf(),
            old(pids).wf(),
            0 <= now <= i64::MAX - TICKET_ISSUE_LENGTH,
        ensures
            final(pids).wf(),
            final(pids)@ == pids_after(old(pids)@, session.addr(), message.reader.raw()),
            response@ == self.response(
                message.reader.raw(),
                message.reader.rest(),
                random_seed,
                now,
            ),
    {
        let mut reader = message.reader;
        let _ = reader.read_type_checked_bit();
        let iv_seed: u32 = match reader.read_u32() {
            Ok(seed) => seed,
            Err(_) => random_seed,
        };
        let title: Title = match reader.read_u32() {
            Ok(id) => match self.titles.from_u32(id) {
                Some(title) => title,
                None => self.titles.t6_wiiu(),
            },
            Err(_) => self.titles.t6_wiiu(),
        };

        let (pid, key): (u64, [u8; 24]) = match find_pid(reader.get_buffer()) {
            Some(pid) => {
                if let Some(ip) = session.peer_ip() {
                    remember_pid(pids, ip, pid as u64);
                }
                (pid as u64, token_key_from_pid(pid))
            },
            None => (DEFAULT_PID, token_key_from_pid(DEFAULT_PID as u32)),
        };

        let expires: i64 = now + TICKET_ISSUE_LENGTH;
        let ticket = AuthTicket {
            ticket_type: BdAuthTicketType::UserToService,
            title,
            time_issued: (now % (u32::MAX as i64)) as u32,
            time_expires: (expires % (u32::MAX as i64)) as u32,
            license_id: pid,
            user_id: pid,
            username: username(pid),
            session_key: session_key(),
        };
        let auth_proof = ClientOpaqueAuthProof {
            title,
            time_expires: expires,
            license_id: pid,
            user_id: pid,
            session_key: session_key(),
            username: username(pid),
        };
        WiiUAuthResponse {
            reply_type: self.reply_type,
            ticket,
            auth_proof,
            iv_seed,
            token_encryption_key: key,
        }
    }
}

impl AuthHandler for WiiUAuthHandler {
    type Response = WiiUAuthResponse;

    /// Answers a request at the time of day. Every request is answered.
    fn handle_message(
        &self,
        session: &mut BdSession,
        message: BdMessage,
        random_seed: u32,
        pids: &mut AddrMap<u64>,
    ) -> (response: Result<WiiUAuthResponse, BdReadError>)
        ensures
            *final(session) == *old(session),
            final(pids)@ == pids_after(old(pids)@, old(session).addr(), message.reader.raw()),
            response matches Ok(response) && exists|now: i64|
                #![trigger ticket_time(now as int)]
                0 <= now < TIME_LIMIT && response@ == self.response(
                    message.reader.raw(),
                    message.reader.rest(),
                    random_seed,
                    now,
                ),
    {
        let now: i64 = unix_time();
        let response = self.respond(session, message, random_seed, now, pids);
        proof {
            assert(response@.ticket.time_issued == ticket_time(now as int));
        }
        Ok(response)
    }
}

/// An answer that is begun and completed has the layout that a console reads:
/// behind the seed stand 128 bytes of proof and, where encryption keeps the length
/// of what was handed out, just as many bytes as there is room for the ticket. The
/// first 128 of what was handed out are the ticket, the others are zero.
pub proof fn law_answer_layout(
    response: ResponseView,
    before: Seq<Val>,
    begun: Seq<Val>,
    finished: Seq<Val>,
    seed: u32,
    plaintext: Seq<u8>,
    sealed_proof: Seq<u8>,
    sealed_ticket: Seq<u8>,
)
    requires
        response.ticket.bytes().len() == 128,
        plaintext == padded(response.ticket.bytes(), ticket_room(response.reply_type)),
        begun == before.push(Val::U32(seed)),
        sealed_proof.len() == 128,
        sealed_ticket.len() == plaintext.len(),
        finished == begun.push(Val::Raw(sealed_proof)).push(Val::Raw(sealed_ticket)),
    ensures
        finished == before + auth_data(seed, sealed_proof, sealed_ticket),
        sealed_ticket.len() == (if response.reply_type == AuthMessageType::WiiUForMmpReply2 {
            0x98nat
        } else {
            0x80nat
        }),
        plaintext.take(128) == response.ticket.bytes(),
        forall|i: int| 128 <= i < plaintext.len() ==> plaintext[i] == 0,
{
    assert(finished =~= before + auth_data(seed, sealed_proof, sealed_ticket));
    assert(plaintext.take(128) =~= response.ticket.bytes());
}

/// Every answer can be written: its ticket has room for the name.
pub proof fn law_every_answer_can_be_written(
    handler: WiiUAuthHandler,
    raw: Seq<u8>,
    values: Seq<Val>,
    random_seed: u32,
    now: i64,
)
    ensures
        handler.response(raw, values, random_seed, now).ticket.name_fits(),
{
    law_username_fits(claimed_pid(raw));
}

/// Ticket and proof tell the same of a client, and the proof outlives the moment
/// it was issued at by the length of a ticket.
pub proof fn law_ticket_and_proof_agree(
    handler: WiiUAuthHandler,
    raw: Seq<u8>,
    values: Seq<Val>,
    random_seed: u32,
    now: i64,
)
    requires
        0 <= now <= i64::MAX - TICKET_ISSUE_LENGTH,
    ensures
        ({
            let r = handler.response(raw, values, random_seed, now);
            &&& r.ticket.title == r.auth_proof.title
            &&& r.ticket.user_id == r.auth_proof.user_id
            &&& r.ticket.license_id == r.auth_proof.license_id
            &&& r.ticket.username == r.auth_proof.username
            &&& r.ticket.session_key == r.auth_proof.session_key
            &&& r.auth_proof.time_expires == now + TICKET_ISSUE_LENGTH
            &&& now + TICKET_ISSUE_LENGTH < u32::MAX ==> r.ticket.time_issued == now
                && r.ticket.time_expires == r.auth_proof.time_expires
        }),
{
}

} // verus!
