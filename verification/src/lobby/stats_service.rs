//! The statistics service. The game keeps its statistics in storage, so there is
//! nothing to report here; it only has to be told that the service is there.

use crate::session::BdSession;
use crate::wire::{next_u8, read_error, BdErrorCode, BdMessage, BdReadError, TaskReply};
use vstd::prelude::*;

verus! {

/// Answers every statistics request with an empty success.
pub struct StatsHandler;

impl StatsHandler {
    pub fn new() -> (handler: StatsHandler)
        ensures
            handler == StatsHandler,
    {
        StatsHandler
    }

    /// Answers a request with an empty success, whatever it asks for.
    pub fn handle_message(&self, session: &BdSession, message: BdMessage) -> (reply: Result<
        TaskReply<()>,
        BdReadError,
    >)
        requires
            message.reader.wf(),
        ensures
            match next_u8(message.reader.rest()) {
                Some(operation_id) => {
                    &&& reply matches Ok(reply)
                    &&& reply.task_id == operation_id
                    &&& reply.error_code == BdErrorCode::NoError
                    &&& reply.results@.len() == 0
                },
                None => reply matches Err(e) && e == read_error(message.reader.rest()),
            },
    {
        let mut reader = message.reader;
        match reader.read_u8() {
            Ok(operation_id) => Ok(TaskReply::with_results(operation_id, Vec::new())),
            Err(e) => Err(e),
        }
    }
}

} // verus!
