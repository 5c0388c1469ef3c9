//! The service that tells clients where in the world they are.

use crate::session::BdSession;
use crate::wire::{
    after_first, next_u32, next_u8, read_error, BdErrorCode, BdMessage, BdReadError, BdReader,
    TaskReply,
};
use vstd::prelude::*;

verus! {

/// Places every client in the same city.
pub struct DmlHandler {}

/// What a client may ask for.
#[derive(Debug, Copy, Clone, PartialEq, Eq, Hash, Structural)]
pub enum DmlTaskId {
    RecordIp,
    GetUserData,
    GetUserHierarchicalData,
}

/// The task that a number stands for.
pub open spec fn task_of(value: u8) -> Option<DmlTaskId> {
    if value == 1 {
        Some(DmlTaskId::RecordIp)
    } else if value == 2 {
        Some(DmlTaskId::GetUserData)
    } else if value == 3 {
        Some(DmlTaskId::GetUserHierarchicalData)
    } else {
        None
    }
}

impl DmlTaskId {
    /// The task that a number stands for.
    pub fn from_u8(value: u8) -> (task: Option<DmlTaskId>)
        ensures
            task == task_of(value),
    {
        match value {
            1 => Some(DmlTaskId::RecordIp),
            2 => Some(DmlTaskId::GetUserData),
            3 => Some(DmlTaskId::GetUserHierarchicalData),
            _ => None,
        }
    }
}

/// A place. The coordinates are single-precision numbers, given by their IEEE 754
/// bit patterns.
#[derive(Debug)]
pub struct DmlInfoResult {
    pub country_code: String,
    pub country: String,
    pub region: String,
    pub city: String,
    pub latitude_bits: u32,
    pub longitude_bits: u32,
}

/// A place and its rank among all places.
#[derive(Debug)]
pub struct DmlHierarchicalInfoResult {
    pub base: DmlInfoResult,
    pub tier0: u32,
    pub tier1: u32,
    pub tier2: u32,
    pub tier3: u32,
}

/// What a client is told.
#[derive(Debug)]
pub enum DmlResult {
    Info(DmlInfoResult),
    Hierarchical(DmlHierarchicalInfoResult),
}

/// 34.0453 degrees north, as a bit pattern.
pub const LATITUDE_BITS: u32 = 0x4208_2E63;

/// 118.2413 degrees west, as a bit pattern.
pub const LONGITUDE_BITS: u32 = 0xC2EC_7B8C;

/// Whether a place is the one that every client is told.
pub open spec fn is_the_place(info: DmlInfoResult) -> bool {
    &&& info.country_code@ == "US"@
    &&& info.country@ == "United States"@
    &&& info.region@ == "California"@
    &&& info.city@ == "Los Angeles"@
    &&& info.latitude_bits == LATITUDE_BITS
    &&& info.longitude_bits == LONGITUDE_BITS
}

/// Whether the results are just the place.
pub open spec fn is_user_data(results: Seq<DmlResult>) -> bool {
    &&& results.len() == 1
    &&& results[0] matches DmlResult::Info(info)
    &&& is_the_place(info)
}

/// Whether the results are just the place, in the lowest tier of everything.
pub open spec fn is_hierarchical_data(results: Seq<DmlResult>) -> bool {
    &&& results.len() == 1
    &&& results[0] matches DmlResult::Hierarchical(info)
    &&& is_the_place(info.base)
    &&& info.tier0 == 0
    &&& info.tier1 == 0
    &&& info.tier2 == 0
    &&& info.tier3 == 0
}

impl Default for DmlHandler {
    fn default() -> (handler: DmlHandler)
        ensures
            handler == (DmlHandler {  }),
    {
        DmlHandler::new()
    }
}

impl DmlHandler {
    pub fn new() -> (handler: DmlHandler)
        ensures
            handler == (DmlHandler {  }),
    {
        DmlHandler {  }
    }

    /// Answers a request. Tasks that are not known are reported as done.
    pub fn handle_message(&self, session: &BdSession, message: BdMessage) -> (reply: Result<
        TaskReply<DmlResult>,
        BdReadError,
    >)
        requires
            message.reader.wf(),
        ensures
            match next_u8(message.reader.rest()) {
                None => reply matches Err(e) && e == read_error(message.reader.rest()),
                Some(task_id) => if task_of(task_id) == Some(DmlTaskId::RecordIp) && next_u32(
                    after_first(message.reader.rest()),
                ) is None {
                    reply matches Err(e) && e == read_error(after_first(message.reader.rest()))
                } else {
                    &&& reply matches Ok(reply)
                    &&& reply.task_id == task_id
                    &&& reply.error_code == BdErrorCode::NoError
                    &&& match task_of(task_id) {
                        Some(DmlTaskId::GetUserData) => is_user_data(reply.results@),
                        Some(DmlTaskId::GetUserHierarchicalData) => is_hierarchical_data(
                            reply.results@,
                        ),
                        _ => reply.results@.len() == 0,
                    }
                },
            },
    {
        let mut reader = message.reader;
        let task_id: u8 = match reader.read_u8() {
            Ok(task_id) => task_id,
            Err(e) => {
                return Err(e);
            },
        };
        match DmlTaskId::from_u8(task_id) {
            Some(DmlTaskId::RecordIp) => Self::record_ip(&mut reader),
            Some(DmlTaskId::GetUserData) => Ok(Self::get_user_data()),
            Some(DmlTaskId::GetUserHierarchicalData) => Ok(Self::get_user_hierarchical_data()),
            None => Ok(TaskReply::with_only_error_code(BdErrorCode::NoError, task_id)),
        }
    }

    /// Takes note of the address that a client reports.
    pub fn record_ip(reader: &mut BdReader) -> (reply: Result<TaskReply<DmlResult>, BdReadError>)
        requires
            old(reader).wf(),
        ensures
            final(reader).wf(),
            final(reader).raw() == old(reader).raw(),
            final(reader).rest() == after_first(old(reader).rest()),
            match next_u32(old(reader).rest()) {
                Some(_) => {
                    &&& reply matches Ok(reply)
                    &&& reply.task_id == 1
                    &&& reply.error_code == BdErrorCode::NoError
                    &&& reply.results@.len() == 0
                },
                None => reply matches Err(e) && e == read_error(old(reader).rest()),
            },
    {
        match reader.read_u32() {
            Ok(_) => Ok(TaskReply::with_only_error_code(BdErrorCode::NoError, 1)),
            Err(e) => Err(e),
        }
    }

    /// Tells a client where it is.
    pub fn get_user_data() -> (reply: TaskReply<DmlResult>)
        ensures
            reply.task_id == 2,
            reply.error_code == BdErrorCode::NoError,
            is_user_data(reply.results@),
    {
        let mut results: Vec<DmlResult> = Vec::new();
        results.push(DmlResult::Info(Self::create_mock_dml_info()));
        TaskReply::with_results(2, results)
    }

    /// Tells a client where it is, and how that place ranks.
    pub fn get_user_hierarchical_data() -> (reply: TaskReply<DmlResult>)
        ensures
            reply.task_id == 3,
            reply.error_code == BdErrorCode::NoError,
            is_hierarchical_data(reply.results@),
    {
        let mut results: Vec<DmlResult> = Vec::new();
        results.push(
            DmlResult::Hierarchical(
                DmlHierarchicalInfoResult {
                    base: Self::create_mock_dml_info(),
                    tier0: 0,
                    tier1: 0,
                    tier2: 0,
                    tier3: 0,
                },
            ),
        );
        TaskReply::with_results(3, results)
    }

    /// The place that every client is told.
    pub fn create_mock_dml_info() -> (info: DmlInfoResult)
        ensures
            is_the_place(info),
    {
        DmlInfoResult {
            country_code: "US".to_string(),
            country: "United States".to_string(),
            region: "California".to_string(),
            city: "Los Angeles".to_string(),
            latitude_bits: LATITUDE_BITS,
            longitude_bits: LONGITUDE_BITS,
        }
    }
}

} // verus!
