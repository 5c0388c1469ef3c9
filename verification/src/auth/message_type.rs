//! The kinds of authentication messages and their codes.

use vstd::prelude::*;

verus! {

/// The kind of an authentication message. Requests have even codes, and the
/// reply to a request has the odd code behind it.
#[derive(Debug, Copy, Clone, PartialEq, Eq, Hash, Structural)]
pub enum AuthMessageType {
    CreateAccountRequest,
    CreateAccountReply,
    ChangeUserKeyRequest,
    ChangeUserKeyReply,
    ResetAccountRequest,
    ResetAccountReply,
    DeleteAccountRequest,
    DeleteAccountReply,
    MigrateAccountsRequest,
    MigrateAccountsReply,
    AccountForMmpRequest,
    AccountForMmpReply,
    HostForMmpRequest,
    HostForMmpReply,
    AccountForHostRequest,
    AccountForHostReply,
    AnonymousForMmpRequest,
    AnonymousForMmpReply,
    Ps3ForMmpRequest,
    Ps3ForMmpReply,
    GetUsernamesByLicenseRequest,
    GetUsernamesByLicenseReply,
    WiiForMmpRequest,
    WiiForMmpReply,
    ForDedicatedServerRequest,
    ForDedicatedServerReply,
    ForDedicatedServerRequestRsa,
    ForDedicatedServerReplyRsa,
    SteamForMmpRequest,
    SteamForMmpReply,
    N3dsForMmpRequest,
    N3dsForMmpReply,
    CodoForMmpRequest,
    CodoForMmpReply,
    AbaccountsForMmpRequest,
    AbaccountsForMmpReply,
    WiiUForMmpRequest,
    WiiUForMmpReply,
    WiiUForMmpRequest2,
    WiiUForMmpReply2,
    WiiUSecondaryForMmpRequest,
    WiiUSecondaryForMmpReply,
}

impl AuthMessageType {
    /// The code of the message kind on the wire.
    pub open spec fn code(self) -> u8 {
        match self {
            AuthMessageType::CreateAccountRequest => 0x0,
            AuthMessageType::CreateAccountReply => 0x1,
            AuthMessageType::ChangeUserKeyRequest => 0x2,
            AuthMessageType::ChangeUserKeyReply => 0x3,
            AuthMessageType::ResetAccountRequest => 0x4,
            AuthMessageType::ResetAccountReply => 0x5,
            AuthMessageType::DeleteAccountRequest => 0x6,
            AuthMessageType::DeleteAccountReply => 0x7,
            AuthMessageType::MigrateAccountsRequest => 0x8,
            AuthMessageType::MigrateAccountsReply => 0x9,
            AuthMessageType::AccountForMmpRequest => 0xA,
            AuthMessageType::AccountForMmpReply => 0xB,
            AuthMessageType::HostForMmpRequest => 0xC,
            AuthMessageType::HostForMmpReply => 0xD,
            AuthMessageType::AccountForHostRequest => 0xE,
            AuthMessageType::AccountForHostReply => 0xF,
            AuthMessageType::AnonymousForMmpRequest => 0x10,
            AuthMessageType::AnonymousForMmpReply => 0x11,
            AuthMessageType::Ps3ForMmpRequest => 0x12,
            AuthMessageType::Ps3ForMmpReply => 0x13,
            AuthMessageType::GetUsernamesByLicenseRequest => 0x14,
            AuthMessageType::GetUsernamesByLicenseReply => 0x15,
            AuthMessageType::WiiForMmpRequest => 0x16,
            AuthMessageType::WiiForMmpReply => 0x17,
            AuthMessageType::ForDedicatedServerRequest => 0x18,
            AuthMessageType::ForDedicatedServerReply => 0x19,
            AuthMessageType::ForDedicatedServerRequestRsa => 0x1A,
            AuthMessageType::ForDedicatedServerReplyRsa => 0x1B,
            AuthMessageType::SteamForMmpRequest => 0x1C,
            AuthMessageType::SteamForMmpReply => 0x1D,
            AuthMessageType::N3dsForMmpRequest => 0x1E,
            AuthMessageType::N3dsForMmpReply => 0x1F,
            AuthMessageType::CodoForMmpRequest => 0x20,
            AuthMessageType::CodoForMmpReply => 0x21,
            AuthMessageType::AbaccountsForMmpRequest => 0x22,
            AuthMessageType::AbaccountsForMmpReply => 0x23,
            AuthMessageType::WiiUForMmpRequest => 0x24,
            AuthMessageType::WiiUForMmpReply => 0x25,
            AuthMessageType::WiiUForMmpRequest2 => 0x26,
            AuthMessageType::WiiUForMmpReply2 => 0x27,
            AuthMessageType::WiiUSecondaryForMmpRequest => 0x28,
            AuthMessageType::WiiUSecondaryForMmpReply => 0x29,
        }
    }

    /// The code of the message kind on the wire.
    pub fn to_u8(&self) -> (code: u8)
        ensures
            code == self.code(),
    {
        match self {
            AuthMessageType::CreateAccountRequest => 0x0,
            AuthMessageType::CreateAccountReply => 0x1,
            AuthMessageType::ChangeUserKeyRequest => 0x2,
            AuthMessageType::ChangeUserKeyReply => 0x3,
            AuthMessageType::ResetAccountRequest => 0x4,
            AuthMessageType::ResetAccountReply => 0x5,
            AuthMessageType::DeleteAccountRequest => 0x6,
            AuthMessageType::DeleteAccountReply => 0x7,
            AuthMessageType::MigrateAccountsRequest => 0x8,
            AuthMessageType::MigrateAccountsReply => 0x9,
            AuthMessageType::AccountForMmpRequest => 0xA,
            AuthMessageType::AccountForMmpReply => 0xB,
            AuthMessageType::HostForMmpRequest => 0xC,
            AuthMessageType::HostForMmpReply => 0xD,
            AuthMessageType::AccountForHostRequest => 0xE,
            AuthMessageType::AccountForHostReply => 0xF,
            AuthMessageType::AnonymousForMmpRequest => 0x10,
            AuthMessageType::AnonymousForMmpReply => 0x11,
            AuthMessageType::Ps3ForMmpRequest => 0x12,
            AuthMessageType::Ps3ForMmpReply => 0x13,
            AuthMessageType::GetUsernamesByLicenseRequest => 0x14,
            AuthMessageType::GetUsernamesByLicenseReply => 0x15,
            AuthMessageType::WiiForMmpRequest => 0x16,
            AuthMessageType::WiiForMmpReply => 0x17,
            AuthMessageType::ForDedicatedServerRequest => 0x18,
            AuthMessageType::ForDedicatedServerReply => 0x19,
            AuthMessageType::ForDedicatedServerRequestRsa => 0x1A,
            AuthMessageType::ForDedicatedServerReplyRsa => 0x1B,
            AuthMessageType::SteamForMmpRequest => 0x1C,
            AuthMessageType::SteamForMmpReply => 0x1D,
            AuthMessageType::N3dsForMmpRequest => 0x1E,
            AuthMessageType::N3dsForMmpReply => 0x1F,
            AuthMessageType::CodoForMmpRequest => 0x20,
            AuthMessageType::CodoForMmpReply => 0x21,
            AuthMessageType::AbaccountsForMmpRequest => 0x22,
            AuthMessageType::AbaccountsForMmpReply => 0x23,
            AuthMessageType::WiiUForMmpRequest => 0x24,
            AuthMessageType::WiiUForMmpReply => 0x25,
            AuthMessageType::WiiUForMmpRequest2 => 0x26,
            AuthMessageType::WiiUForMmpReply2 => 0x27,
            AuthMessageType::WiiUSecondaryForMmpRequest => 0x28,
            AuthMessageType::WiiUSecondaryForMmpReply => 0x29,
        }
    }

    /// The message kind with this code, if there is one.
    pub fn from_u8(code: u8) -> (kind: Option<AuthMessageType>)
        ensures
            match kind {
                Some(kind) => kind.code() == code,
                None => code > 0x29,
            },
    {
        match code {
            0x0 => Some(AuthMessageType::CreateAccountRequest),
            0x1 => Some(AuthMessageType::CreateAccountReply),
            0x2 => Some(AuthMessageType::ChangeUserKeyRequest),
            0x3 => Some(AuthMessageType::ChangeUserKeyReply),
            0x4 => Some(AuthMessageType::ResetAccountRequest),
            0x5 => Some(AuthMessageType::ResetAccountReply),
            0x6 => Some(AuthMessageType::DeleteAccountRequest),
            0x7 => Some(AuthMessageType::DeleteAccountReply),
            0x8 => Some(AuthMessageType::MigrateAccountsRequest),
            0x9 => Some(AuthMessageType::MigrateAccountsReply),
            0xA => Some(AuthMessageType::AccountForMmpRequest),
            0xB => Some(AuthMessageType::AccountForMmpReply),
            0xC => Some(AuthMessageType::HostForMmpRequest),
            0xD => Some(AuthMessageType::HostForMmpReply),
            0xE => Some(AuthMessageType::AccountForHostRequest),
            0xF => Some(AuthMessageType::AccountForHostReply),
            0x10 => Some(AuthMessageType::AnonymousForMmpRequest),
            0x11 => Some(AuthMessageType::AnonymousForMmpReply),
            0x12 => Some(AuthMessageType::Ps3ForMmpRequest),
            0x13 => Some(AuthMessageType::Ps3ForMmpReply),
            0x14 => Some(AuthMessageType::GetUsernamesByLicenseRequest),
            0x15 => Some(AuthMessageType::GetUsernamesByLicenseReply),
            0x16 => Some(AuthMessageType::WiiForMmpRequest),
            0x17 => Some(AuthMessageType::WiiForMmpReply),
            0x18 => Some(AuthMessageType::ForDedicatedServerRequest),
            0x19 => Some(AuthMessageType::ForDedicatedServerReply),
            0x1A => Some(AuthMessageType::ForDedicatedServerRequestRsa),
            0x1B => Some(AuthMessageType::ForDedicatedServerReplyRsa),
            0x1C => Some(AuthMessageType::SteamForMmpRequest),
            0x1D => Some(AuthMessageType::SteamForMmpReply),
            0x1E => Some(AuthMessageType::N3dsForMmpRequest),
            0x1F => Some(AuthMessageType::N3dsForMmpReply),
            0x20 => Some(AuthMessageType::CodoForMmpRequest),
            0x21 => Some(AuthMessageType::CodoForMmpReply),
            0x22 => Some(AuthMessageType::AbaccountsForMmpRequest),
            0x23 => Some(AuthMessageType::AbaccountsForMmpReply),
            0x24 => Some(AuthMessageType::WiiUForMmpRequest),
            0x25 => Some(AuthMessageType::WiiUForMmpReply),
            0x26 => Some(AuthMessageType::WiiUForMmpRequest2),
            0x27 => Some(AuthMessageType::WiiUForMmpReply2),
            0x28 => Some(AuthMessageType::WiiUSecondaryForMmpRequest),
            0x29 => Some(AuthMessageType::WiiUSecondaryForMmpReply),
            _ => None,
        }
    }

    /// Whether this is a request.
    pub fn is_request_code(&self) -> (r: bool)
        ensures
            r == (self.code() % 2 == 0),
    {
        self.to_u8() % 2 == 0
    }

    /// The kind of the reply to this message; that of a reply is the reply itself.
    pub fn reply_code(&self) -> (reply: AuthMessageType)
        ensures
            reply.code() == self.code() - self.code() % 2 + 1,
    {
        let code: u8 = self.to_u8();
        proof {
            lemma_code_bound(*self);
        }
        match Self::from_u8((code - (code % 2)) + 1) {
            Some(reply) => reply,
            None => AuthMessageType::WiiUSecondaryForMmpReply,
        }
    }
}

/// Every code is at most the last one.
proof fn lemma_code_bound(kind: AuthMessageType)
    ensures
        kind.code() <= 0x29,
{
}

/// No two kinds share a code.
pub proof fn law_codes_are_distinct(a: AuthMessageType, b: AuthMessageType)
    requires
        a.code() == b.code(),
    ensures
        a == b,
{
}

/// The reply to a request is the kind behind it, and a reply is its own reply.
pub proof fn law_reply_pairs(request: AuthMessageType, reply: AuthMessageType)
    requires
        reply.code() == request.code() - request.code() % 2 + 1,
    ensures
        reply.code() % 2 == 1,
        request.code() % 2 == 0 ==> reply.code() == request.code() + 1,
        request.code() % 2 == 1 ==> reply == request,
{
    if request.code() % 2 == 1 {
        law_codes_are_distinct(request, reply);
    }
}

/// The kinds stand in the order of their codes, each request in front of its reply.
pub proof fn law_code_table(kind: AuthMessageType)
    ensures
        kind.code() == 0 <==> kind == AuthMessageType::CreateAccountRequest,
        kind.code() == 1 <==> kind == AuthMessageType::CreateAccountReply,
        kind.code() == 2 <==> kind == AuthMessageType::ChangeUserKeyRequest,
        kind.code() == 3 <==> kind == AuthMessageType::ChangeUserKeyReply,
        kind.code() == 4 <==> kind == AuthMessageType::ResetAccountRequest,
        kind.code() == 5 <==> kind == AuthMessageType::ResetAccountReply,
        kind.code() == 6 <==> kind == AuthMessageType::DeleteAccountRequest,
        kind.code() == 7 <==> kind == AuthMessageType::DeleteAccountReply,
        kind.code() == 8 <==> kind == AuthMessageType::MigrateAccountsRequest,
        kind.code() == 9 <==> kind == AuthMessageType::MigrateAccountsReply,
        kind.code() == 10 <==> kind == AuthMessageType::AccountForMmpRequest,
        kind.code() == 11 <==> kind == AuthMessageType::AccountForMmpReply,
        kind.code() == 12 <==> kind == AuthMessageType::HostForMmpRequest,
        kind.code() == 13 <==> kind == AuthMessageType::HostForMmpReply,
        kind.code() == 14 <==> kind == AuthMessageType::AccountForHostRequest,
        kind.code() == 15 <==> kind == AuthMessageType::AccountForHostReply,
        kind.code() == 16 <==> kind == AuthMessageType::AnonymousForMmpRequest,
        kind.code() == 17 <==> kind == AuthMessageType::AnonymousForMmpReply,
        kind.code() == 18 <==> kind == AuthMessageType::Ps3ForMmpRequest,
        kind.code() == 19 <==> kind == AuthMessageType::Ps3ForMmpReply,
        kind.code() == 20 <==> kind == AuthMessageType::GetUsernamesByLicenseRequest,
        kind.code() == 21 <==> kind == AuthMessageType::GetUsernamesByLicenseReply,
        kind.code() == 22 <==> kind == AuthMessageType::WiiForMmpRequest,
        kind.code() == 23 <==> kind == AuthMessageType::WiiForMmpReply,
        kind.code() == 24 <==> kind == AuthMessageType::ForDedicatedServerRequest,
        kind.code() == 25 <==> kind == AuthMessageType::ForDedicatedServerReply,
        kind.code() == 26 <==> kind == AuthMessageType::ForDedicatedServerRequestRsa,
        kind.code() == 27 <==> kind == AuthMessageType::ForDedicatedServerReplyRsa,
        kind.code() == 28 <==> kind == AuthMessageType::SteamForMmpRequest,
        kind.code() == 29 <==> kind == AuthMessageType::SteamForMmpReply,
        kind.code() == 30 <==> kind == AuthMessageType::N3dsForMmpRequest,
        kind.code() == 31 <==> kind == AuthMessageType::N3dsForMmpReply,
        kind.code() == 32 <==> kind == AuthMessageType::CodoForMmpRequest,
        kind.code() == 33 <==> kind == AuthMessageType::CodoForMmpReply,
        kind.code() == 34 <==> kind == AuthMessageType::AbaccountsForMmpRequest,
        kind.code() == 35 <==> kind == AuthMessageType::AbaccountsForMmpReply,
        kind.code() == 36 <==> kind == AuthMessageType::WiiUForMmpRequest,
        kind.code() == 37 <==> kind == AuthMessageType::WiiUForMmpReply,
        kind.code() == 38 <==> kind == AuthMessageType::WiiUForMmpRequest2,
        kind.code() == 39 <==> kind == AuthMessageType::WiiUForMmpReply2,
        kind.code() == 40 <==> kind == AuthMessageType::WiiUSecondaryForMmpRequest,
        kind.code() == 41 <==> kind == AuthMessageType::WiiUSecondaryForMmpReply,
{
}

} // verus!
