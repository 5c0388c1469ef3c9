//! Messages as the services see them: a raw buffer and the typed values that the
//! framing layer found in it, read one after the other.

use vstd::prelude::*;
use vstd::slice::slice_to_vec;

verus! {

/// One typed value of a message. Floating-point values are carried as their
/// IEEE 754 bit pattern, which the services never look into.
#[derive(Debug)]
pub enum BdValue {
    U8(u8),
    U32(u32),
    I32(i32),
    U64(u64),
    F32 { bits: u32 },
    /// The bit that opens a bit-mode message and says whether values carry tags.
    TypeChecked(bool),
    /// Bytes behind a length.
    Blob(Vec<u8>),
    /// Bytes without any length.
    Raw(Vec<u8>),
    /// A place where no value could be read.
    Malformed,
}

/// What a [`BdValue`] is, as a mathematical value.
pub ghost enum Val {
    U8(u8),
    U32(u32),
    I32(i32),
    U64(u64),
    F32(u32),
    TypeChecked(bool),
    Blob(Seq<u8>),
    Raw(Seq<u8>),
    Malformed,
}

impl View for BdValue {
    type V = Val;

    open spec fn view(&self) -> Val {
        match self {
            BdValue::U8(v) => Val::U8(*v),
            BdValue::U32(v) => Val::U32(*v),
            BdValue::I32(v) => Val::I32(*v),
            BdValue::U64(v) => Val::U64(*v),
            BdValue::F32 { bits } => Val::F32(*bits),
            BdValue::TypeChecked(v) => Val::TypeChecked(*v),
            BdValue::Blob(v) => Val::Blob(v@),
            BdValue::Raw(v) => Val::Raw(v@),
            BdValue::Malformed => Val::Malformed,
        }
    }
}

/// Why a value could not be read.
#[derive(Debug, Copy, Clone, PartialEq, Eq, Structural)]
pub enum BdReadError {
    /// The message holds no further value.
    EndOfMessage,
    /// The next value is not of the kind that was asked for.
    UnexpectedValue,
}

/// A sequence without its first item; an empty one stays empty.
pub open spec fn after_first(s: Seq<Val>) -> Seq<Val> {
    if s.len() == 0 {
        s
    } else {
        s.drop_first()
    }
}

/// The error of a read that does not find what it asks for.
pub open spec fn read_error(rest: Seq<Val>) -> BdReadError {
    if rest.len() == 0 {
        BdReadError::EndOfMessage
    } else {
        BdReadError::UnexpectedValue
    }
}

/// The value of kind `U8` that comes next, if that is what comes next.
pub open spec fn next_u8(rest: Seq<Val>) -> Option<u8> {
    if rest.len() > 0 && rest[0] is U8 {
        Some(rest[0]->U8_0)
    } else {
        None
    }
}

/// The value of kind `U32` that comes next, if that is what comes next.
pub open spec fn next_u32(rest: Seq<Val>) -> Option<u32> {
    if rest.len() > 0 && rest[0] is U32 {
        Some(rest[0]->U32_0)
    } else {
        None
    }
}

/// The value of kind `I32` that comes next, if that is what comes next.
pub open spec fn next_i32(rest: Seq<Val>) -> Option<i32> {
    if rest.len() > 0 && rest[0] is I32 {
        Some(rest[0]->I32_0)
    } else {
        None
    }
}

/// The value of kind `U64` that comes next, if that is what comes next.
pub open spec fn next_u64(rest: Seq<Val>) -> Option<u64> {
    if rest.len() > 0 && rest[0] is U64 {
        Some(rest[0]->U64_0)
    } else {
        None
    }
}

/// The value of kind `F32` that comes next, if that is what comes next.
pub open spec fn next_f32(rest: Seq<Val>) -> Option<u32> {
    if rest.len() > 0 && rest[0] is F32 {
        Some(rest[0]->F32_0)
    } else {
        None
    }
}

/// The value of kind `TypeChecked` that comes next, if that is what comes next.
pub open spec fn next_type_checked_bit(rest: Seq<Val>) -> Option<bool> {
    if rest.len() > 0 && rest[0] is TypeChecked {
        Some(rest[0]->TypeChecked_0)
    } else {
        None
    }
}

/// The value of kind `Blob` that comes next, if that is what comes next.
pub open spec fn next_blob(rest: Seq<Val>) -> Option<Seq<u8>> {
    if rest.len() > 0 && rest[0] is Blob {
        Some(rest[0]->Blob_0)
    } else {
        None
    }
}

/// The value of kind `Raw` that comes next, if that is what comes next.
pub open spec fn next_raw(rest: Seq<Val>) -> Option<Seq<u8>> {
    if rest.len() > 0 && rest[0] is Raw {
        Some(rest[0]->Raw_0)
    } else {
        None
    }
}

/// Reads the values of one message in order.
///
/// Every read takes one value off the message, whether or not it is of the kind
/// that was asked for; at the end of the message nothing is left to take.
pub struct BdReader {
    buffer: Vec<u8>,
    values: Vec<BdValue>,
    pos: usize,
}

impl BdReader {
    pub closed spec fn wf(self) -> bool {
        self.pos <= self.values@.len()
    }

    /// The raw bytes of the whole message.
    pub closed spec fn raw(self) -> Seq<u8> {
        self.buffer@
    }

    /// The values that have not been read yet.
    pub closed spec fn rest(self) -> Seq<Val> {
        self.values@.skip(self.pos as int).map_values(|v: BdValue| v@)
    }

    /// A reader at the start of a message.
    pub fn new(buffer: Vec<u8>, values: Vec<BdValue>) -> (reader: BdReader)
        ensures
            reader.wf(),
            reader.raw() == buffer@,
            reader.rest() == values@.map_values(|v: BdValue| v@),
    {
        proof {
            assert(values@.skip(0) =~= values@);
        }
        BdReader { buffer, values, pos: 0 }
    }

    /// The raw bytes of the whole message, read or not.
    pub fn get_buffer(&self) -> (bytes: &[u8])
        ensures
            bytes@ == self.raw(),
    {
        self.buffer.as_slice()
    }

    /// The unsigned byte that comes next, if that is what comes next; it stays
    /// there.
    pub fn peek_u8(&self) -> (v: Option<u8>)
        requires
            self.wf(),
        ensures
            v == next_u8(self.rest()),
    {
        if self.pos < self.values.len() {
            proof {
                assert(self.rest()[0] == self.values@[self.pos as int]@);
            }
            match &self.values[self.pos] {
                BdValue::U8(v) => Some(*v),
                _ => None,
            }
        } else {
            None
        }
    }

    /// Steps over one value and gives its place, if there is one.
    fn advance(&mut self) -> (place: Result<usize, BdReadError>)
        requires
            old(self).wf(),
        ensures
            final(self).wf(),
            final(self).raw() == old(self).raw(),
            final(self).rest() == after_first(old(self).rest()),
            final(self).values@ == old(self).values@,
            match place {
                Ok(i) => {
                    &&& old(self).rest().len() > 0
                    &&& i < old(self).values@.len()
                    &&& old(self).values@[i as int]@ == old(self).rest()[0]
                },
                Err(e) => old(self).rest().len() == 0 && e == BdReadError::EndOfMessage,
            },
    {
        if self.pos < self.values.len() {
            let i: usize = self.pos;
            self.pos = self.pos + 1;
            proof {
                assert(self.rest() =~= old(self).rest().drop_first());
            }
            Ok(i)
        } else {
            Err(BdReadError::EndOfMessage)
        }
    }

    /// Reads an unsigned byte.
    pub fn read_u8(&mut self) -> (r: Result<u8, BdReadError>)
        requires
            old(self).wf(),
        ensures
            final(self).wf(),
            final(self).raw() == old(self).raw(),
            final(self).rest() == after_first(old(self).rest()),
            r == (match next_u8(old(self).rest()) {
                Some(v) => Ok::<u8, BdReadError>(v),
                None => Err(read_error(old(self).rest())),
            }),
    {
        match self.advance() {
            Ok(i) => match &self.values[i] {
                BdValue::U8(v) => Ok(*v),
                _ => Err(BdReadError::UnexpectedValue),
            },
            Err(e) => Err(e),
        }
    }

    /// Reads an unsigned 32-bit number.
    pub fn read_u32(&mut self) -> (r: Result<u32, BdReadError>)
        requires
            old(self).wf(),
        ensures
            final(self).wf(),
            final(self).raw() == old(self).raw(),
            final(self).rest() == after_first(old(self).rest()),
            r == (match next_u32(old(self).rest()) {
                Some(v) => Ok::<u32, BdReadError>(v),
                None => Err(read_error(old(self).rest())),
            }),
    {
        match self.advance() {
            Ok(i) => match &self.values[i] {
                BdValue::U32(v) => Ok(*v),
                _ => Err(BdReadError::UnexpectedValue),
            },
            Err(e) => Err(e),
        }
    }

    /// Reads a signed 32-bit number.
    pub fn read_i32(&mut self) -> (r: Result<i32, BdReadError>)
        requires
            old(self).wf(),
        ensures
            final(self).wf(),
            final(self).raw() == old(self).raw(),
            final(self).rest() == after_first(old(self).rest()),
            r == (match next_i32(old(self).rest()) {
                Some(v) => Ok::<i32, BdReadError>(v),
                None => Err(read_error(old(self).rest())),
            }),
    {
        match self.advance() {
            Ok(i) => match &self.values[i] {
                BdValue::I32(v) => Ok(*v),
                _ => Err(BdReadError::UnexpectedValue),
            },
            Err(e) => Err(e),
        }
    }

    /// Reads an unsigned 64-bit number.
    pub fn read_u64(&mut self) -> (r: Result<u64, BdReadError>)
        requires
            old(self).wf(),
        ensures
            final(self).wf(),
            final(self).raw() == old(self).raw(),
            final(self).rest() == after_first(old(self).rest()),
            r == (match next_u64(old(self).rest()) {
                Some(v) => Ok::<u64, BdReadError>(v),
                None => Err(read_error(old(self).rest())),
            }),
    {
        match self.advance() {
            Ok(i) => match &self.values[i] {
                BdValue::U64(v) => Ok(*v),
                _ => Err(BdReadError::UnexpectedValue),
            },
            Err(e) => Err(e),
        }
    }

    /// Reads a single-precision number and gives its bit pattern.
    pub fn read_f32(&mut self) -> (r: Result<u32, BdReadError>)
        requires
            old(self).wf(),
        ensures
            final(self).wf(),
            final(self).raw() == old(self).raw(),
            final(self).rest() == after_first(old(self).rest()),
            r == (match next_f32(old(self).rest()) {
                Some(v) => Ok::<u32, BdReadError>(v),
                None => Err(read_error(old(self).rest())),
            }),
    {
        match self.advance() {
            Ok(i) => match &self.values[i] {
                BdValue::F32 { bits } => Ok(*bits),
                _ => Err(BdReadError::UnexpectedValue),
            },
            Err(e) => Err(e),
        }
    }

    /// Reads the bit that says whether values carry tags.
    pub fn read_type_checked_bit(&mut self) -> (r: Result<bool, BdReadError>)
        requires
            old(self).wf(),
        ensures
            final(self).wf(),
            final(self).raw() == old(self).raw(),
            final(self).rest() == after_first(old(self).rest()),
            r == (match next_type_checked_bit(old(self).rest()) {
                Some(v) => Ok::<bool, BdReadError>(v),
                None => Err(read_error(old(self).rest())),
            }),
    {
        match self.advance() {
            Ok(i) => match &self.values[i] {
                BdValue::TypeChecked(v) => Ok(*v),
                _ => Err(BdReadError::UnexpectedValue),
            },
            Err(e) => Err(e),
        }
    }

    /// Reads bytes that stand behind their length.
    pub fn read_blob(&mut self) -> (r: Result<Vec<u8>, BdReadError>)
        requires
            old(self).wf(),
        ensures
            final(self).wf(),
            final(self).raw() == old(self).raw(),
            final(self).rest() == after_first(old(self).rest()),
            match r {
                Ok(bytes) => next_blob(old(self).rest()) == Some(bytes@),
                Err(e) => next_blob(old(self).rest()) is None && e == read_error(old(self).rest()),
            },
    {
        match self.advance() {
            Ok(i) => match &self.values[i] {
                BdValue::Blob(bytes) => Ok(slice_to_vec(bytes.as_slice())),
                _ => Err(BdReadError::UnexpectedValue),
            },
            Err(e) => Err(e),
        }
    }

    /// Reads exactly `count` bytes that stand without a length.
    pub fn read_bytes(&mut self, count: usize) -> (r: Result<Vec<u8>, BdReadError>)
        requires
            old(self).wf(),
        ensures
            final(self).wf(),
            final(self).raw() == old(self).raw(),
            final(self).rest() == after_first(old(self).rest()),
            match r {
                Ok(bytes) => next_raw(old(self).rest()) == Some(bytes@) && bytes@.len() == count,
                Err(e) => {
                    &&& !(next_raw(old(self).rest()) matches Some(bytes) && bytes.len() == count)
                    &&& e == read_error(old(self).rest())
                },
            },
    {
        match self.advance() {
            Ok(i) => match &self.values[i] {
                BdValue::Raw(bytes) if bytes.len() == count => Ok(slice_to_vec(bytes.as_slice())),
                _ => Err(BdReadError::UnexpectedValue),
            },
            Err(e) => Err(e),
        }
    }
}

/// How values are packed on the wire.
#[derive(Debug, Copy, Clone, PartialEq, Eq, Structural)]
pub enum StreamMode {
    ByteMode,
    BitMode,
}

/// Collects the values of one message in order.
pub struct BdWriter {
    values: Vec<BdValue>,
    mode: StreamMode,
    type_checked: bool,
}

impl BdWriter {
    /// The values written so far.
    pub closed spec fn written(self) -> Seq<Val> {
        self.values@.map_values(|v: BdValue| v@)
    }

    /// How what comes next is packed.
    pub closed spec fn stream_mode(self) -> StreamMode {
        self.mode
    }

    /// Whether what comes next carries tags.
    pub closed spec fn tagged(self) -> bool {
        self.type_checked
    }

    /// A writer that has written nothing.
    pub fn new(mode: StreamMode, type_checked: bool) -> (writer: BdWriter)
        ensures
            writer.written() == Seq::<Val>::empty(),
            writer.stream_mode() == mode,
            writer.tagged() == type_checked,
    {
        let writer = BdWriter { values: Vec::new(), mode, type_checked };
        proof {
            assert(writer.written() =~= Seq::<Val>::empty());
        }
        writer
    }

    pub fn set_mode(&mut self, mode: StreamMode)
        ensures
            final(self).written() == old(self).written(),
            final(self).stream_mode() == mode,
            final(self).tagged() == old(self).tagged(),
    {
        self.mode = mode;
    }

    pub fn set_type_checked(&mut self, type_checked: bool)
        ensures
            final(self).written() == old(self).written(),
            final(self).stream_mode() == old(self).stream_mode(),
            final(self).tagged() == type_checked,
    {
        self.type_checked = type_checked;
    }

    /// Appends one value.
    pub fn write(&mut self, value: BdValue)
        ensures
            final(self).written() == old(self).written().push(value@),
            final(self).stream_mode() == old(self).stream_mode(),
            final(self).tagged() == old(self).tagged(),
    {
        self.values.push(value);
        proof {
            assert(self.written() =~= old(self).written().push(value@));
        }
    }

    pub fn write_u32(&mut self, value: u32)
        ensures
            final(self).written() == old(self).written().push(Val::U32(value)),
            final(self).stream_mode() == old(self).stream_mode(),
            final(self).tagged() == old(self).tagged(),
    {
        self.write(BdValue::U32(value));
    }

    pub fn write_i32(&mut self, value: i32)
        ensures
            final(self).written() == old(self).written().push(Val::I32(value)),
            final(self).stream_mode() == old(self).stream_mode(),
            final(self).tagged() == old(self).tagged(),
    {
        self.write(BdValue::I32(value));
    }

    pub fn write_u64(&mut self, value: u64)
        ensures
            final(self).written() == old(self).written().push(Val::U64(value)),
            final(self).stream_mode() == old(self).stream_mode(),
            final(self).tagged() == old(self).tagged(),
    {
        self.write(BdValue::U64(value));
    }

    /// Appends a single-precision number, given by its bit pattern.
    pub fn write_f32(&mut self, bits: u32)
        ensures
            final(self).written() == old(self).written().push(Val::F32(bits)),
            final(self).stream_mode() == old(self).stream_mode(),
            final(self).tagged() == old(self).tagged(),
    {
        self.write(BdValue::F32 { bits });
    }

    /// Appends bytes behind their length.
    pub fn write_blob(&mut self, bytes: &[u8])
        ensures
            final(self).written() == old(self).written().push(Val::Blob(bytes@)),
            final(self).stream_mode() == old(self).stream_mode(),
            final(self).tagged() == old(self).tagged(),
    {
        self.write(BdValue::Blob(slice_to_vec(bytes)));
    }

    /// Appends bytes without a length.
    pub fn write_bytes(&mut self, bytes: &[u8])
        ensures
            final(self).written() == old(self).written().push(Val::Raw(bytes@)),
            final(self).stream_mode() == old(self).stream_mode(),
            final(self).tagged() == old(self).tagged(),
    {
        self.write(BdValue::Raw(slice_to_vec(bytes)));
    }

    /// The values written so far, for the framing layer.
    pub fn into_values(self) -> (values: Vec<BdValue>)
        ensures
            values@.map_values(|v: BdValue| v@) == self.written(),
    {
        self.values
    }
}

/// A request as it reaches a service.
pub struct BdMessage {
    pub reader: BdReader,
}

/// Outcome codes that the services hand out.
#[derive(Debug, Copy, Clone, PartialEq, Eq, Structural)]
pub enum BdErrorCode {
    NoError,
    AuthNoError,
}

/// The answer of a lobby service to one task.
#[derive(Debug)]
pub struct TaskReply<R> {
    pub task_id: u8,
    pub error_code: BdErrorCode,
    pub results: Vec<R>,
}

impl<R> TaskReply<R> {
    /// A successful answer with results.
    pub fn with_results(task_id: u8, results: Vec<R>) -> (reply: TaskReply<R>)
        ensures
            reply.task_id == task_id,
            reply.error_code == BdErrorCode::NoError,
            reply.results == results,
    {
        TaskReply { task_id, error_code: BdErrorCode::NoError, results }
    }

    /// An answer that carries an outcome and no results.
    pub fn with_only_error_code(error_code: BdErrorCode, task_id: u8) -> (reply: TaskReply<R>)
        ensures
            reply.task_id == task_id,
            reply.error_code == error_code,
            reply.results@.len() == 0,
    {
        TaskReply { task_id, error_code, results: Vec::new() }
    }
}

} // verus!
