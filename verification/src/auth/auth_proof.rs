//! Who a client is, as the authentication service vouches for it.

use crate::session::Title;
use vstd::prelude::*;

verus! {

/// What a client carries from the authentication service to the lobby. It
/// travels sealed, so that the client cannot read or change it.
pub struct ClientOpaqueAuthProof {
    pub title: Title,
    pub time_expires: i64,
    pub license_id: u64,
    pub user_id: u64,
    pub session_key: [u8; 24],
    pub username: String,
}

/// A proof, as a mathematical value.
pub ghost struct ProofView {
    pub title: Title,
    pub time_expires: i64,
    pub license_id: u64,
    pub user_id: u64,
    pub session_key: Seq<u8>,
    pub username: Seq<char>,
}

impl View for ClientOpaqueAuthProof {
    type V = ProofView;

    open spec fn view(&self) -> ProofView {
        ProofView {
            title: self.title,
            time_expires: self.time_expires,
            license_id: self.license_id,
            user_id: self.user_id,
            session_key: self.session_key@,
            username: self.username@,
        }
    }
}

} // verus!
