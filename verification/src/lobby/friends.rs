//! The friends service.

use crate::session::BdSession;
use crate::wire::{BdErrorCode, BdMessage, TaskReply};
use vstd::prelude::*;

verus! {

/// Reports success on every friends request, and nothing else.
pub struct FriendsHandler {}

/// The task that a raw request names: its first byte, and zero where there is none.
pub open spec fn task_in(raw: Seq<u8>) -> u8 {
    if raw.len() > 0 {
        raw[0]
    } else {
        0
    }
}

impl Default for FriendsHandler {
    fn default() -> (handler: FriendsHandler)
        ensures
            handler == (FriendsHandler {  }),
    {
        FriendsHandler::new()
    }
}

impl FriendsHandler {
    pub fn new() -> (handler: FriendsHandler)
        ensures
            handler == (FriendsHandler {  }),
    {
        FriendsHandler {  }
    }

    /// Reports success for the task that the request names.
    pub fn handle_message(&self, session: &BdSession, message: BdMessage) -> (reply: TaskReply<()>)
        ensures
            reply.task_id == task_in(message.reader.raw()),
            reply.error_code == BdErrorCode::NoError,
            reply.results@.len() == 0,
    {
        let raw: &[u8] = message.reader.get_buffer();
        let task_id: u8 = if raw.len() > 0 {
            raw[0]
        } else {
            0
        };
        TaskReply::with_only_error_code(BdErrorCode::NoError, task_id)
    }
}

} // verus!
