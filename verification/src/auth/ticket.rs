//! Tickets: what a client learns of its own authentication.

use crate::digest::{tiger192, tiger_digest};
use crate::octets::{
    law_le_bytes_read_back, le_bytes, le_value, lemma_le_bytes_len, lemma_radix_powers, pad_to, padded,
    push_all, push_le,
};
use crate::session::Title;
use crate::wire::{BdWriter, StreamMode, Val};
use vstd::prelude::*;
use vstd::utf8::encode_utf8;

verus! {

/// Who a ticket is from and for.
#[derive(Debug, Copy, Clone, PartialEq, Eq, Hash, Structural)]
pub enum BdAuthTicketType {
    UserToService,
    HostToService,
    UserToHost,
}

impl BdAuthTicketType {
    /// The code of the kind on the wire.
    pub open spec fn code(self) -> u8 {
        match self {
            BdAuthTicketType::UserToService => 0,
            BdAuthTicketType::HostToService => 1,
            BdAuthTicketType::UserToHost => 2,
        }
    }

    /// The code of the kind on the wire.
    pub fn to_u8(&self) -> (code: u8)
        ensures
            code == self.code(),
    {
        match self {
            BdAuthTicketType::UserToService => 0,
            BdAuthTicketType::HostToService => 1,
            BdAuthTicketType::UserToHost => 2,
        }
    }
}

/// A ticket. It tells the client the session key, among other things.
pub struct AuthTicket {
    pub ticket_type: BdAuthTicketType,
    pub title: Title,
    pub time_issued: u32,
    pub time_expires: u32,
    pub license_id: u64,
    pub user_id: u64,
    pub username: String,
    pub session_key: [u8; 24],
}

/// A ticket, as a mathematical value.
pub ghost struct TicketView {
    pub ticket_type: BdAuthTicketType,
    pub title: Title,
    pub time_issued: u32,
    pub time_expires: u32,
    pub license_id: u64,
    pub user_id: u64,
    pub username: Seq<char>,
    pub session_key: Seq<u8>,
}

impl View for AuthTicket {
    type V = TicketView;

    open spec fn view(&self) -> TicketView {
        TicketView {
            ticket_type: self.ticket_type,
            title: self.title,
            time_issued: self.time_issued,
            time_expires: self.time_expires,
            license_id: self.license_id,
            user_id: self.user_id,
            username: self.username@,
            session_key: self.session_key@,
        }
    }
}

/// What every ticket begins with.
pub const MAGIC_NUMBER: u32 = 0xEFBD_ADDE;

/// The room for a name in a ticket, in bytes.
pub const NAME_MAX_LEN: usize = 64;

/// The name is longer than the room for it.
#[derive(Debug, Copy, Clone, PartialEq, Eq, Structural)]
pub struct UsernameTooLongError {
    pub name_len: usize,
}

/// A name as UTF-8, filled up with zeros to its room.
pub open spec fn name_field(name: Seq<char>) -> Seq<u8> {
    padded(encode_utf8(name), NAME_MAX_LEN as nat)
}

impl TicketView {
    /// The fields in order, integers least significant byte first.
    pub open spec fn body(self) -> Seq<u8> {
        le_bytes(MAGIC_NUMBER as nat, 4) + seq![self.ticket_type.code()] + le_bytes(
            self.title.id as nat,
            4,
        ) + le_bytes(self.time_issued as nat, 4) + le_bytes(self.time_expires as nat, 4) + le_bytes(
            self.license_id as nat,
            8,
        ) + le_bytes(self.user_id as nat, 8) + name_field(self.username) + self.session_key
    }

    /// The ticket as it is sent: the fields, a fixed mark, and the first four
    /// bytes of the digest of the fields.
    pub open spec fn bytes(self) -> Seq<u8> {
        self.body() + seq![0x55u8, 0x33u8, 0x22u8] + tiger192(self.body()).take(4)
    }

    /// Whether the name finds room.
    pub open spec fn name_fits(self) -> bool {
        encode_utf8(self.username).len() <= NAME_MAX_LEN
    }
}

impl AuthTicket {
    /// The fields in order, or the length of a name that finds no room.
    pub fn body_bytes(&self) -> (body: Result<Vec<u8>, UsernameTooLongError>)
        ensures
            match body {
                Ok(body) => self@.name_fits() && body@ == self@.body() && body@.len() == 121,
                Err(e) => !self@.name_fits() && e.name_len == encode_utf8(self.username@).len(),
            },
    {
        let name: &[u8] = self.username.as_str().as_bytes();
        if name.len() > NAME_MAX_LEN {
            return Err(UsernameTooLongError { name_len: name.len() });
        }
        let mut body: Vec<u8> = Vec::new();
        push_le(&mut body, MAGIC_NUMBER as u64, 4);
        body.push(self.ticket_type.to_u8());
        push_le(&mut body, self.title.to_u32() as u64, 4);
        push_le(&mut body, self.time_issued as u64, 4);
        push_le(&mut body, self.time_expires as u64, 4);
        push_le(&mut body, self.license_id, 8);
        push_le(&mut body, self.user_id, 8);
        let ghost head = body@;
        push_all(&mut body, name);
        proof {
            lemma_le_bytes_len(MAGIC_NUMBER as nat, 4);
            lemma_le_bytes_len(self.title.id as nat, 4);
            lemma_le_bytes_len(self.time_issued as nat, 4);
            lemma_le_bytes_len(self.time_expires as nat, 4);
            lemma_le_bytes_len(self.license_id as nat, 8);
            lemma_le_bytes_len(self.user_id as nat, 8);
            assert(head.len() == 33);
        }
        let filled: usize = body.len() + (NAME_MAX_LEN - name.len());
        pad_to(&mut body, filled);
        proof {
            assert(body@ =~= head + name_field(self.username@));
        }
        push_all(&mut body, self.session_key.as_slice());
        proof {
            assert(body@ =~= self@.body());
        }
        Ok(body)
    }

    /// The fields of a ticket, completed by the mark and by the beginning of their
    /// digest.
    pub fn completed(body: Vec<u8>, sum: [u8; 24]) -> (bytes: Vec<u8>)
        ensures
            bytes@ == body@ + seq![0x55u8, 0x33u8, 0x22u8] + sum@.take(4),
    {
        let mut bytes: Vec<u8> = body;
        bytes.push(0x55);
        bytes.push(0x33);
        bytes.push(0x22);
        bytes.push(sum[0]);
        bytes.push(sum[1]);
        bytes.push(sum[2]);
        bytes.push(sum[3]);
        proof {
            assert(bytes@ =~= body@ + seq![0x55u8, 0x33u8, 0x22u8] + sum@.take(4));
        }
        bytes
    }

    /// The ticket as it is sent, or the length of a name that finds no room.
    pub fn to_bytes(&self) -> (bytes: Result<Vec<u8>, UsernameTooLongError>)
        ensures
            match bytes {
                Ok(bytes) => self@.name_fits() && bytes@ == self@.bytes() && bytes@.len() == 128,
                Err(e) => !self@.name_fits() && e.name_len == encode_utf8(self.username@).len(),
            },
    {
        match self.body_bytes() {
            Ok(body) => {
                let sum: [u8; 24] = tiger_digest(body.as_slice());
                Ok(Self::completed(body, sum))
            },
            Err(e) => Err(e),
        }
    }

    /// Writes the ticket as plain bytes, without tags. A name that finds no room
    /// is refused before anything is written.
    pub fn serialize(&self, writer: &mut BdWriter) -> (r: Result<(), UsernameTooLongError>)
        ensures
            final(writer).stream_mode() == StreamMode::ByteMode,
            !final(writer).tagged(),
            match r {
                Ok(_) => {
                    &&& self@.name_fits()
                    &&& final(writer).written() == old(writer).written().push(
                        Val::Raw(self@.bytes()),
                    )
                    &&& self@.bytes().len() == 128
                },
                Err(e) => {
                    &&& !self@.name_fits()
                    &&& e.name_len == encode_utf8(self.username@).len()
                    &&& final(writer).written() == old(writer).written()
                },
            },
    {
        writer.set_type_checked(false);
        writer.set_mode(StreamMode::ByteMode);
        match self.to_bytes() {
            Ok(bytes) => {
                writer.write_bytes(bytes.as_slice());
                Ok(())
            },
            Err(e) => Err(e),
        }
    }
}

/// Every field of a ticket stands at a fixed place and can be read back from it.
pub proof fn law_ticket_fields(t: TicketView)
    requires
        t.session_key.len() == 24,
    ensures
        t.body().len() == 121,
        le_value(t.body().subrange(0, 4)) == MAGIC_NUMBER,
        t.body()[4] == t.ticket_type.code(),
        le_value(t.body().subrange(5, 9)) == t.title.id,
        le_value(t.body().subrange(9, 13)) == t.time_issued,
        le_value(t.body().subrange(13, 17)) == t.time_expires,
        le_value(t.body().subrange(17, 25)) == t.license_id,
        le_value(t.body().subrange(25, 33)) == t.user_id,
        t.body().subrange(33, 97) == name_field(t.username),
        t.body().subrange(97, 121) == t.session_key,
{
    let magic = le_bytes(MAGIC_NUMBER as nat, 4);
    let title = le_bytes(t.title.id as nat, 4);
    let issued = le_bytes(t.time_issued as nat, 4);
    let expires = le_bytes(t.time_expires as nat, 4);
    let license = le_bytes(t.license_id as nat, 8);
    let user = le_bytes(t.user_id as nat, 8);
    lemma_le_bytes_len(MAGIC_NUMBER as nat, 4);
    lemma_le_bytes_len(t.title.id as nat, 4);
    lemma_le_bytes_len(t.time_issued as nat, 4);
    lemma_le_bytes_len(t.time_expires as nat, 4);
    lemma_le_bytes_len(t.license_id as nat, 8);
    lemma_le_bytes_len(t.user_id as nat, 8);
    let body = t.body();
    assert(body.subrange(0, 4) =~= magic);
    assert(body.subrange(5, 9) =~= title);
    assert(body.subrange(9, 13) =~= issued);
    assert(body.subrange(13, 17) =~= expires);
    assert(body.subrange(17, 25) =~= license);
    assert(body.subrange(25, 33) =~= user);
    assert(body.subrange(33, 97) =~= name_field(t.username));
    assert(body.subrange(97, 121) =~= t.session_key);
    lemma_radix_powers();
    law_le_bytes_read_back(MAGIC_NUMBER as nat, 4);
    law_le_bytes_read_back(t.title.id as nat, 4);
    law_le_bytes_read_back(t.time_issued as nat, 4);
    law_le_bytes_read_back(t.time_expires as nat, 4);
    law_le_bytes_read_back(t.license_id as nat, 8);
    law_le_bytes_read_back(t.user_id as nat, 8);
}

} // verus!
