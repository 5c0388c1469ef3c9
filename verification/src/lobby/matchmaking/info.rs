//! What a console announces of its lobby, and the rows handed out to others.

use super::common_addr::{redirect_common_addr, redirected};
use crate::octets::{
    law_le_bytes_read_back, le_bytes, le_value, lemma_le_bytes_len, lemma_radix_powers, push_le,
    read_le,
};
use crate::wire::{after_first, next_blob, read_error, BdReadError, BdReader, BdWriter, Val};
use vstd::prelude::*;
use vstd::slice::slice_to_vec;

verus! {

/// A lobby as its host describes it. The skill is the bit pattern of a
/// single-precision number.
#[derive(Debug)]
pub struct SessionInfo {
    pub common_addr: Vec<u8>,
    pub field_a: u32,
    pub max_players: u32,
    pub security_id: u64,
    pub security_key: Vec<u8>,
    pub ints: Vec<i32>,
    pub skill: u32,
    pub tail: Vec<i32>,
}

/// A [`SessionInfo`] as a mathematical value.
pub ghost struct InfoView {
    pub common_addr: Seq<u8>,
    pub field_a: u32,
    pub max_players: u32,
    pub security_id: u64,
    pub security_key: Seq<u8>,
    pub ints: Seq<i32>,
    pub skill: u32,
    pub tail: Seq<i32>,
}

impl View for SessionInfo {
    type V = InfoView;

    open spec fn view(&self) -> InfoView {
        InfoView {
            common_addr: self.common_addr@,
            field_a: self.field_a,
            max_players: self.max_players,
            security_id: self.security_id,
            security_key: self.security_key@,
            ints: self.ints@,
            skill: self.skill,
            tail: self.tail@,
        }
    }
}

/// An optional description as a mathematical value.
pub open spec fn optional_view(info: Option<SessionInfo>) -> Option<InfoView> {
    match info {
        Some(i) => Some(i@),
        None => None,
    }
}

impl SessionInfo {
    /// A copy of the description.
    pub fn duplicate(&self) -> (info: SessionInfo)
        ensures
            info@ == self@,
    {
        SessionInfo {
            common_addr: slice_to_vec(self.common_addr.as_slice()),
            field_a: self.field_a,
            max_players: self.max_players,
            security_id: self.security_id,
            security_key: slice_to_vec(self.security_key.as_slice()),
            ints: slice_to_vec(self.ints.as_slice()),
            skill: self.skill,
            tail: slice_to_vec(self.tail.as_slice()),
        }
    }
}

/// How many values describe a lobby.
pub const INFO_VALUES: usize = 18;

/// Whether a value is of the kind that stands at place `i` of a description: a
/// blob, two unsigned numbers, a long one, a blob, eight signed numbers, a
/// floating-point one, four signed numbers.
pub open spec fn fits(i: nat, v: Val) -> bool {
    if i == 0 || i == 4 {
        v is Blob
    } else if i == 1 || i == 2 {
        v is U32
    } else if i == 3 {
        v is U64
    } else if i == 13 {
        v is F32
    } else {
        v is I32
    }
}

/// How far, from place `i` on, values agree with a description.
pub open spec fn agreed(rest: Seq<Val>, i: nat) -> nat
    decreases INFO_VALUES - i,
{
    if i < INFO_VALUES && i < rest.len() && fits(i, rest[i as int]) {
        agreed(rest, i + 1)
    } else {
        i
    }
}

/// The description that values start with, if they do.
pub open spec fn info_in(rest: Seq<Val>) -> Option<InfoView> {
    if agreed(rest, 0) == INFO_VALUES {
        Some(
            InfoView {
                common_addr: rest[0]->Blob_0,
                field_a: rest[1]->U32_0,
                max_players: rest[2]->U32_0,
                security_id: rest[3]->U64_0,
                security_key: rest[4]->Blob_0,
                ints: Seq::new(8, |k: int| rest[5 + k]->I32_0),
                skill: rest[13]->F32_0,
                tail: Seq::new(4, |k: int| rest[14 + k]->I32_0),
            },
        )
    } else {
        None
    }
}

/// What reading the value at place `k` of a run sees and leaves.
proof fn lemma_places(rest: Seq<Val>)
    ensures
        rest.skip(0) == rest,
        forall|k: int|
            0 <= k <= rest.len() ==> #[trigger] rest.skip(k).len() == rest.len() - k && (k
                < rest.len() ==> rest.skip(k)[0] == rest[k] && after_first(rest.skip(k))
                == rest.skip(k + 1)),
{
    assert(rest.skip(0) =~= rest);
    assert forall|k: int| 0 <= k <= rest.len() implies #[trigger] rest.skip(k).len() == rest.len()
        - k && (k < rest.len() ==> rest.skip(k)[0] == rest[k] && after_first(rest.skip(k))
        == rest.skip(k + 1)) by {
        if k < rest.len() {
            assert(after_first(rest.skip(k)) =~= rest.skip(k + 1));
        }
    }
}

/// Reads `count` signed numbers that stand from place `start` of a description on.
fn read_ints(reader: &mut BdReader, start: usize, count: usize, Ghost(rest): Ghost<Seq<Val>>) -> (r:
    Result<Vec<i32>, BdReadError>)
    requires
        old(reader).wf(),
        start + count <= INFO_VALUES,
        5 <= start,
        start + count <= 13 || 14 <= start,
        start <= rest.len(),
        old(reader).rest() == rest.skip(start as int),
        agreed(rest, 0) == agreed(rest, start as nat),
    ensures
        final(reader).wf(),
        final(reader).raw() == old(reader).raw(),
        match r {
            Ok(ints) => {
                &&& start + count <= rest.len()
                &&& agreed(rest, 0) == agreed(rest, (start + count) as nat)
                &&& final(reader).rest() == rest.skip(start + count)
                &&& ints@ == Seq::new(count as nat, |k: int| rest[start + k]->I32_0)
            },
            Err(e) => {
                &&& agreed(rest, 0) < INFO_VALUES
                &&& agreed(rest, 0) <= rest.len()
                &&& e == read_error(rest.skip(agreed(rest, 0) as int))
                &&& final(reader).rest() == after_first(rest.skip(agreed(rest, 0) as int))
            },
        },
{
    let mut ints: Vec<i32> = Vec::new();
    let mut i: usize = 0;
    proof {
        lemma_places(rest);
    }
    while i < count
        invariant
            i <= count,
            start + count <= INFO_VALUES,
            5 <= start,
            start + count <= 13 || 14 <= start,
            reader.wf(),
            reader.raw() == old(reader).raw(),
            start + i <= rest.len(),
            reader.rest() == rest.skip(start + i),
            agreed(rest, 0) == agreed(rest, (start + i) as nat),
            ints@ =~= Seq::new(i as nat, |k: int| rest[start + k]->I32_0),
        decreases count - i,
    {
        proof {
            lemma_places(rest);
        }
        match reader.read_i32() {
            Ok(v) => {
                ints.push(v);
            },
            Err(e) => {
                return Err(e);
            },
        }
        i = i + 1;
    }
    Ok(ints)
}

/// Reads the description of a lobby.
///
/// The values have to be of the kinds that a description has, in its order. On
/// failure the first value that is not, if there is one, has been taken as well.
pub fn parse_session_info(reader: &mut BdReader) -> (r: Result<SessionInfo, BdReadError>)
    requires
        old(reader).wf(),
    ensures
        final(reader).wf(),
        final(reader).raw() == old(reader).raw(),
        match r {
            Ok(info) => {
                &&& info_in(old(reader).rest()) == Some(info@)
                &&& final(reader).rest() == old(reader).rest().skip(INFO_VALUES as int)
            },
            Err(e) => {
                let k = agreed(old(reader).rest(), 0) as int;
                &&& info_in(old(reader).rest()) is None
                &&& e == read_error(old(reader).rest().skip(k))
                &&& final(reader).rest() == after_first(old(reader).rest().skip(k))
            },
        },
{
    let ghost rest = reader.rest();
    proof {
        lemma_places(rest);
    }
    let common_addr: Vec<u8> = match reader.read_blob() {
        Ok(v) => v,
        Err(e) => return Err(e),
    };
    assert(agreed(rest, 0) == agreed(rest, 1));
    let field_a: u32 = match reader.read_u32() {
        Ok(v) => v,
        Err(e) => return Err(e),
    };
    assert(agreed(rest, 0) == agreed(rest, 2));
    let max_players: u32 = match reader.read_u32() {
        Ok(v) => v,
        Err(e) => return Err(e),
    };
    assert(agreed(rest, 0) == agreed(rest, 3));
    let security_id: u64 = match reader.read_u64() {
        Ok(v) => v,
        Err(e) => return Err(e),
    };
    assert(agreed(rest, 0) == agreed(rest, 4));
    let security_key: Vec<u8> = match reader.read_blob() {
        Ok(v) => v,
        Err(e) => return Err(e),
    };
    assert(agreed(rest, 0) == agreed(rest, 5));
    let ints: Vec<i32> = match read_ints(reader, 5, 8, Ghost(rest)) {
        Ok(v) => v,
        Err(e) => return Err(e),
    };
    let skill: u32 = match reader.read_f32() {
        Ok(v) => v,
        Err(e) => return Err(e),
    };
    assert(agreed(rest, 0) == agreed(rest, 14));
    let tail: Vec<i32> = match read_ints(reader, 14, 4, Ghost(rest)) {
        Ok(v) => v,
        Err(e) => return Err(e),
    };
    let info = SessionInfo {
        common_addr,
        field_a,
        max_players,
        security_id,
        security_key,
        ints,
        skill,
        tail,
    };
    proof {
        assert(info@.ints =~= Seq::new(8, |k: int| rest[5 + k]->I32_0));
        assert(info@.tail =~= Seq::new(4, |k: int| rest[14 + k]->I32_0));
        assert(info_in(rest) == Some(info@));
    }
    Ok(info)
}

/// A session id as its eight bytes, least significant first.
pub fn id_bytes(id: u64) -> (bytes: Vec<u8>)
    ensures
        bytes@ == le_bytes(id as nat, 8),
{
    let mut bytes: Vec<u8> = Vec::new();
    push_le(&mut bytes, id, 8);
    proof {
        assert(bytes@ =~= le_bytes(id as nat, 8));
    }
    bytes
}

/// The session id that values start with: the first eight bytes of a blob.
pub open spec fn session_id_in(rest: Seq<Val>) -> Option<u64> {
    match next_blob(rest) {
        Some(bytes) if bytes.len() >= 8 => Some(le_value(bytes.take(8)) as u64),
        _ => None,
    }
}

/// Reads a session id, if the next value is a blob of eight bytes or more.
pub fn read_session_id(reader: &mut BdReader) -> (id: Option<u64>)
    requires
        old(reader).wf(),
    ensures
        final(reader).wf(),
        final(reader).raw() == old(reader).raw(),
        final(reader).rest() == after_first(old(reader).rest()),
        id == session_id_in(old(reader).rest()),
{
    match reader.read_blob() {
        Ok(blob) => {
            if blob.len() < 8 {
                None
            } else {
                proof {
                    assert(blob@.subrange(0, 8) =~= blob@.take(8));
                }
                Some(read_le(blob.as_slice(), 0, 8))
            }
        },
        Err(_) => None,
    }
}

/// The id of a lobby that has just been registered.
#[derive(Debug, Copy, Clone, PartialEq, Eq, Structural)]
pub struct SessionIdResult {
    pub id: u64,
}

impl SessionIdResult {
    /// Writes the id as a blob of eight bytes.
    pub fn serialize(&self, writer: &mut BdWriter)
        ensures
            final(writer).written() == old(writer).written().push(
                Val::Blob(le_bytes(self.id as nat, 8)),
            ),
            final(writer).stream_mode() == old(writer).stream_mode(),
            final(writer).tagged() == old(writer).tagged(),
    {
        let bytes: Vec<u8> = id_bytes(self.id);
        writer.write_blob(bytes.as_slice());
    }
}

/// One lobby in the answer to a search.
#[derive(Debug)]
pub struct SessionRow {
    pub id: u64,
    pub info: SessionInfo,
    /// An address to hand out in place of the host's own ones.
    pub sink: Option<[u8; 6]>,
}

/// A [`SessionRow`] as a mathematical value.
pub ghost struct RowView {
    pub id: u64,
    pub info: InfoView,
    pub sink: Option<[u8; 6]>,
}

impl View for SessionRow {
    type V = RowView;

    open spec fn view(&self) -> RowView {
        RowView { id: self.id, info: self.info@, sink: self.sink }
    }
}

impl RowView {
    /// The address block that the row hands out.
    pub open spec fn shown_addr(self) -> Seq<u8> {
        match self.sink {
            Some(slot) => redirected(self.info.common_addr, slot@),
            None => self.info.common_addr,
        }
    }

    /// The values of the row: address block, session id, zero, two numbers of the
    /// description, then the rest of it. With `zero_sec_id` the security id that
    /// is handed out is zero.
    pub open spec fn values(self, zero_sec_id: bool) -> Seq<Val> {
        seq![
            Val::Blob(self.shown_addr()),
            Val::Blob(le_bytes(self.id as nat, 8)),
            Val::U32(0),
            Val::U32(self.info.field_a),
            Val::U32(self.info.max_players),
            Val::U64(
                if zero_sec_id {
                    0
                } else {
                    self.info.security_id
                },
            ),
            Val::Blob(self.info.security_key),
        ] + int_values(self.info.ints) + seq![Val::F32(self.info.skill)] + int_values(
            self.info.tail,
        )
    }
}

/// Signed numbers as values.
pub open spec fn int_values(ints: Seq<i32>) -> Seq<Val> {
    ints.map_values(|v: i32| Val::I32(v))
}

/// Writes signed numbers one after the other.
fn write_ints(writer: &mut BdWriter, ints: &Vec<i32>)
    ensures
        final(writer).written() == old(writer).written() + int_values(ints@),
        final(writer).stream_mode() == old(writer).stream_mode(),
        final(writer).tagged() == old(writer).tagged(),
{
    let mut i: usize = 0;
    while i < ints.len()
        invariant
            i <= ints@.len(),
            writer.written() =~= old(writer).written() + int_values(ints@.take(i as int)),
            writer.stream_mode() == old(writer).stream_mode(),
            writer.tagged() == old(writer).tagged(),
        decreases ints@.len() - i,
    {
        writer.write_i32(ints[i]);
        i = i + 1;
    }
    proof {
        assert(ints@.take(ints@.len() as int) =~= ints@);
    }
}

impl SessionRow {
    /// Writes the row.
    pub fn serialize(&self, writer: &mut BdWriter, zero_sec_id: bool)
        ensures
            final(writer).written() == old(writer).written() + self@.values(zero_sec_id),
            final(writer).stream_mode() == old(writer).stream_mode(),
            final(writer).tagged() == old(writer).tagged(),
    {
        match self.sink {
            Some(slot) => {
                let shown: Vec<u8> = redirect_common_addr(self.info.common_addr.as_slice(), slot);
                writer.write_blob(shown.as_slice());
            },
            None => {
                writer.write_blob(self.info.common_addr.as_slice());
            },
        }
        let id: Vec<u8> = id_bytes(self.id);
        writer.write_blob(id.as_slice());
        writer.write_u32(0);
        writer.write_u32(self.info.field_a);
        writer.write_u32(self.info.max_players);
        let advertised_sec_id: u64 = if zero_sec_id {
            0
        } else {
            self.info.security_id
        };
        writer.write_u64(advertised_sec_id);
        writer.write_blob(self.info.security_key.as_slice());
        write_ints(writer, &self.info.ints);
        writer.write_f32(self.info.skill);
        write_ints(writer, &self.info.tail);
        proof {
            assert(writer.written() =~= old(writer).written() + self@.values(zero_sec_id));
        }
    }
}

/// The id that an announcement is answered with is the one read back from any
/// later request that carries the answer.
pub proof fn law_session_id_read_back(id: u64, rest: Seq<Val>)
    ensures
        session_id_in(seq![Val::Blob(le_bytes(id as nat, 8))] + rest) == Some(id),
{
    lemma_radix_powers();
    lemma_le_bytes_len(id as nat, 8);
    law_le_bytes_read_back(id as nat, 8);
    assert(le_bytes(id as nat, 8).take(8) =~= le_bytes(id as nat, 8));
}

/// The description that a row hands out: the host's own, but for a redirected
/// address and a withheld security id.
pub open spec fn told_info(row: RowView, zero_sec_id: bool) -> InfoView {
    InfoView {
        common_addr: row.shown_addr(),
        security_id: if zero_sec_id {
            0
        } else {
            row.info.security_id
        },
        ..row.info
    }
}

/// A row tells a joiner what the host announced: its session id can be read back,
/// and without that and the zero behind it the row is the host's description,
/// value for value, but for what is redirected or withheld.
pub proof fn law_row_carries_info(announcement: Seq<Val>, row: RowView, zero_sec_id: bool)
    requires
        info_in(announcement) == Some(row.info),
    ensures
        session_id_in(row.values(zero_sec_id).skip(1)) == Some(row.id),
        info_in(seq![row.values(zero_sec_id)[0]] + row.values(zero_sec_id).skip(3)) == Some(
            told_info(row, zero_sec_id),
        ),
        row.sink is None && !zero_sec_id ==> told_info(row, zero_sec_id) == row.info,
{
    let values = row.values(zero_sec_id);
    let told = told_info(row, zero_sec_id);
    law_session_id_read_back(row.id, values.skip(2));
    assert(values.skip(1) =~= seq![Val::Blob(le_bytes(row.id as nat, 8))] + values.skip(2));
    let rest = seq![values[0]] + values.skip(3);
    assert(rest.len() == INFO_VALUES);
    assert(rest[1] == Val::U32(told.field_a));
    assert(rest[2] == Val::U32(told.max_players));
    assert(rest[3] == Val::U64(told.security_id));
    assert(rest[4] == Val::Blob(told.security_key));
    assert(rest[13] == Val::F32(told.skill));
    assert(forall|i: nat| i < INFO_VALUES ==> #[trigger] fits(i, rest[i as int]));
    lemma_all_fit(rest, 0);
    assert(Seq::new(8, |k: int| rest[5 + k]->I32_0) =~= told.ints);
    assert(Seq::new(4, |k: int| rest[14 + k]->I32_0) =~= told.tail);
}

/// Values that are all of the right kinds agree to the end.
proof fn lemma_all_fit(rest: Seq<Val>, i: nat)
    requires
        i <= INFO_VALUES,
        INFO_VALUES <= rest.len(),
        forall|j: nat| i <= j < INFO_VALUES ==> #[trigger] fits(j, rest[j as int]),
    ensures
        agreed(rest, i) == INFO_VALUES,
    decreases INFO_VALUES - i,
{
    if i < INFO_VALUES {
        assert(fits(i, rest[i as int]));
        lemma_all_fit(rest, i + 1);
    }
}

} // verus!
