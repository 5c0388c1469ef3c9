//! Which service a message on the shared port is for.

use crate::session::BdSession;
use crate::wire::BdMessage;
use vstd::prelude::*;

verus! {

/// The services behind the shared port.
#[derive(Debug, Copy, Clone, PartialEq, Eq, Structural)]
pub enum Destination {
    Auth,
    Lobby,
}

/// Whether a message type is one that the authentication service answers on the
/// shared port.
pub open spec fn is_auth_type(msg_type: u8) -> bool {
    ||| msg_type == 0x26
    ||| msg_type == 0x24
    ||| msg_type == 0x28
    ||| msg_type == 0x0A
    ||| msg_type == 0x10
    ||| msg_type == 0x00
}

/// The type of a raw message: its first byte, and zero where there is none.
pub open spec fn type_in(raw: Seq<u8>) -> u8 {
    if raw.len() > 0 {
        raw[0]
    } else {
        0
    }
}

/// The service that a message of a client is for, who is authenticated already or
/// not.
pub open spec fn destination_of(authenticated: bool, raw: Seq<u8>) -> Destination {
    if !authenticated && is_auth_type(type_in(raw)) {
        Destination::Auth
    } else {
        Destination::Lobby
    }
}

/// The service that a message is for. Once a client is authenticated, everything
/// goes to the lobby.
pub fn route(session: &BdSession, message: &BdMessage) -> (destination: Destination)
    ensures
        destination == destination_of(
            session.authentication is Some,
            message.reader.raw(),
        ),
{
    if session.authentication.is_some() {
        return Destination::Lobby;
    }
    let raw: &[u8] = message.reader.get_buffer();
    let msg_type: u8 = if raw.len() > 0 {
        raw[0]
    } else {
        0
    };
    if msg_type == 0x26 || msg_type == 0x24 || msg_type == 0x28 || msg_type == 0x0A || msg_type
        == 0x10 || msg_type == 0x00 {
        Destination::Auth
    } else {
        Destination::Lobby
    }
}

/// A message of a client that is not authenticated goes by its first byte: it is for
/// the authentication service if that announces a new account, an account, an
/// anonymous or a Wii U request, or if there is none. Everything that an
/// authenticated client sends is for the lobby.
pub proof fn law_route_goes_by_the_first_byte(first: u8, rest: Seq<u8>)
    ensures
        seq![0x00u8, 0x0Au8, 0x10u8, 0x24u8, 0x26u8, 0x28u8].contains(first) ==> destination_of(
            false,
            seq![first] + rest,
        ) == Destination::Auth,
        !seq![0x00u8, 0x0Au8, 0x10u8, 0x24u8, 0x26u8, 0x28u8].contains(first) ==> destination_of(
            false,
            seq![first] + rest,
        ) == Destination::Lobby,
        destination_of(false, Seq::empty()) == Destination::Auth,
        destination_of(true, seq![first] + rest) == Destination::Lobby,
        destination_of(true, Seq::empty()) == Destination::Lobby,
{
    let known = seq![0x00u8, 0x0Au8, 0x10u8, 0x24u8, 0x26u8, 0x28u8];
    assert(known[0] == 0x00 && known[1] == 0x0A && known[2] == 0x10 && known[3] == 0x24 && known[4]
        == 0x26 && known[5] == 0x28);
}

} // verus!
