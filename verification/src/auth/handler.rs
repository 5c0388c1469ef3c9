//! What every authentication handler offers.

use crate::peer::AddrMap;
use crate::session::BdSession;
use crate::wire::{BdMessage, BdReadError};
use vstd::prelude::*;

verus! {

/// Answers the requests of one kind of client.
pub trait AuthHandler {
    /// What the client is answered.
    type Response;

    /// Handles one request. `random_seed` is a random number for the case that the
    /// request brings none; `pids` holds which principal id authenticated from
    /// which address.
    fn handle_message(
        &self,
        session: &mut BdSession,
        message: BdMessage,
        random_seed: u32,
        pids: &mut AddrMap<u64>,
    ) -> (response: Result<Self::Response, BdReadError>)
        requires
            message.reader.wf(),
            old(pids).wf(),
        ensures
            final(pids).wf(),
    ;
}

} // verus!
