//! Connected clients and the titles they play.

use crate::peer::{IpAddr, Peer};
use vstd::prelude::*;

verus! {

/// A game title, by its number.
#[derive(Debug, Copy, Clone, PartialEq, Eq, Structural)]
pub struct Title {
    pub id: u32,
}

impl Title {
    /// The number that stands for the title on the wire and in paths.
    pub fn to_u32(&self) -> (id: u32)
        ensures
            id == self.id,
    {
        self.id
    }
}

/// The titles that a deployment serves, with Black Ops II on Wii U among them.
pub struct TitleSet {
    t6_wiiu: u32,
    others: Vec<u32>,
}

impl TitleSet {
    /// The number of Black Ops II on Wii U.
    pub closed spec fn t6_wiiu_id(self) -> u32 {
        self.t6_wiiu
    }

    /// Whether a number stands for a title that is served.
    pub closed spec fn knows(self, id: u32) -> bool {
        id == self.t6_wiiu || self.others@.contains(id)
    }

    /// The set of Black Ops II on Wii U and the given other titles.
    pub fn new(t6_wiiu: u32, others: Vec<u32>) -> (titles: TitleSet)
        ensures
            titles.t6_wiiu_id() == t6_wiiu,
            forall|id: u32| #[trigger] titles.knows(id) == (id == t6_wiiu || others@.contains(id)),
    {
        TitleSet { t6_wiiu, others }
    }

    /// Black Ops II on Wii U.
    pub fn t6_wiiu(&self) -> (title: Title)
        ensures
            title.id == self.t6_wiiu_id(),
            self.knows(title.id),
    {
        Title { id: self.t6_wiiu }
    }

    /// The title with this number, if it is served.
    pub fn from_u32(&self, id: u32) -> (title: Option<Title>)
        ensures
            title == self.title_of(id),
    {
        if id == self.t6_wiiu {
            return Some(Title { id });
        }
        let mut i: usize = 0;
        while i < self.others.len()
            invariant
                i <= self.others@.len(),
                id != self.t6_wiiu,
                forall|j: int| 0 <= j < i ==> self.others@[j] != id,
            decreases self.others@.len() - i,
        {
            if self.others[i] == id {
                proof {
                    assert(self.others@.contains(id));
                }
                return Some(Title { id });
            }
            i = i + 1;
        }
        None
    }

    /// The title that a number stands for.
    pub open spec fn title_of(self, id: u32) -> Option<Title> {
        if self.knows(id) {
            Some(Title { id })
        } else {
            None
        }
    }
}

/// Who a session belongs to once it has been authenticated.
pub struct SessionAuthentication {
    pub user_id: u64,
    pub username: String,
    pub session_key: [u8; 24],
    pub title: Title,
}

/// Who a session belongs to, as a mathematical value.
pub ghost struct AuthenticationView {
    pub user_id: u64,
    pub username: Seq<char>,
    pub session_key: Seq<u8>,
    pub title: Title,
}

impl View for SessionAuthentication {
    type V = AuthenticationView;

    open spec fn view(&self) -> AuthenticationView {
        AuthenticationView {
            user_id: self.user_id,
            username: self.username@,
            session_key: self.session_key@,
            title: self.title,
        }
    }
}

/// One connected client.
pub struct BdSession {
    pub id: u64,
    pub peer: Option<Peer>,
    pub authentication: Option<SessionAuthentication>,
}

impl BdSession {
    /// The address of the client, where it is known.
    pub open spec fn addr(self) -> Option<IpAddr> {
        match self.peer {
            Some(peer) => Some(peer.ip),
            None => None,
        }
    }

    /// Who the session belongs to, once it has been authenticated.
    pub open spec fn identity(self) -> Option<AuthenticationView> {
        match self.authentication {
            Some(authentication) => Some(authentication@),
            None => None,
        }
    }

    /// A fresh session, not authenticated yet.
    pub fn new(id: u64, peer: Option<Peer>) -> (session: BdSession)
        ensures
            session.id == id,
            session.peer == peer,
            session.authentication is None,
    {
        BdSession { id, peer, authentication: None }
    }

    /// The address of the client, where it is known.
    pub fn peer_ip(&self) -> (ip: Option<IpAddr>)
        ensures
            ip == self.addr(),
    {
        match &self.peer {
            Some(peer) => Some(peer.ip),
            None => None,
        }
    }

    /// Marks the session as belonging to a user.
    pub fn set_authentication(&mut self, authentication: SessionAuthentication)
        ensures
            final(self).id == old(self).id,
            final(self).peer == old(self).peer,
            final(self).authentication == Some(authentication),
    {
        self.authentication = Some(authentication);
    }
}

} // verus!
