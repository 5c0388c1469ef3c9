//! Which playlist a search asks for, byte by byte.

use super::query::{
    anchors, pattern32, playlist_in, preceded_by, query_playlist, scalar_bytes, scalar_slot,
    scalars_bytes, scalars_slots, slots_from, QuerySlot, Scalar,
};
use crate::octets::{law_le_bytes_read_back, le_bytes, lemma_le_bytes_len, lemma_radix_powers};
use vstd::prelude::*;

verus! {

/// How scalars are written, and what they are read as: the tag 07 and a signed
/// number, 08 and an unsigned one, 0D and a single-precision one, all of four bytes,
/// the least significant first; 0A and eight bytes; or the tag 14 alone.
pub proof fn law_scalars_by_bytes(v: i32, u: u32, w: u64)
    ensures
        ({
            let bytes = scalar_bytes(Scalar::Unsigned(u));
            &&& bytes.len() == 5
            &&& bytes[0] == 0x08
            &&& bytes[1] + 0x100 * bytes[2] + 0x1_0000 * bytes[3] + 0x100_0000 * bytes[4] == u
        }),
        ({
            let bytes = scalar_bytes(Scalar::Signed(v));
            &&& bytes.len() == 5
            &&& bytes[0] == 0x07
            &&& bytes[1] + 0x100 * bytes[2] + 0x1_0000 * bytes[3] + 0x100_0000 * bytes[4] == (if v
                < 0 {
                v + 0x1_0000_0000
            } else {
                v as int
            })
        }),
        scalar_bytes(Scalar::Float(u)).len() == 5,
        scalar_bytes(Scalar::Float(u))[0] == 0x0D,
        scalar_bytes(Scalar::Long(w)).len() == 9,
        scalar_bytes(Scalar::Long(w))[0] == 0x0A,
        scalar_bytes(Scalar::Wildcard) == seq![0x14u8],
        scalar_slot(Scalar::Signed(v)) == QuerySlot::Number(v),
        u < 0x8000_0000 ==> scalar_slot(Scalar::Unsigned(u)) == QuerySlot::Number(u as i32),
        u >= 0x8000_0000 ==> scalar_slot(Scalar::Unsigned(u)) == QuerySlot::Number(
            (u - 0x1_0000_0000) as i32,
        ),
        scalar_slot(Scalar::Float(u)) == QuerySlot::Other,
        scalar_slot(Scalar::Long(w)) == QuerySlot::Other,
        scalar_slot(Scalar::Wildcard) == QuerySlot::DontCare,
{
    lemma_le_bytes_len(u as nat, 4);
    lemma_le_bytes_len(w as nat, 8);
    lemma_four(u as nat);
    lemma_four(pattern32(v));
}

proof fn lemma_four(x: nat)
    requires
        x < 0x1_0000_0000,
    ensures
        le_bytes(x, 4).len() == 4,
        ({
            let b = le_bytes(x, 4);
            b[0] + 0x100 * b[1] + 0x1_0000 * b[2] + 0x100_0000 * b[3] == x
        }),
{
    lemma_le_bytes_len(x, 4);
    reveal_with_fuel(le_bytes, 5);
    let b = le_bytes(x, 4);
    assert(b[0] == (x % 256) as u8);
    assert(b[1] == (x / 256 % 256) as u8);
    assert(b[2] == (x / 256 / 256 % 256) as u8);
    assert(b[3] == (x / 256 / 256 / 256 % 256) as u8);
}

/// What is read from scalars with anything behind them: the scalars, as far as they
/// are looked at, and then what is read from the rest.
proof fn lemma_scalars_first(
    raw: Seq<u8>,
    i: nat,
    scalars: Seq<Scalar>,
    tail: Seq<u8>,
    room: nat,
)
    requires
        i <= raw.len(),
        raw.skip(i as int) == scalars_bytes(scalars) + tail,
    ensures
        scalars.len() >= room ==> slots_from(raw, i, room) == Some(scalars_slots(scalars, room)),
        scalars.len() < room ==> slots_from(raw, i, room) == (match slots_from(
            raw,
            i + scalars_bytes(scalars).len(),
            (room - scalars.len()) as nat,
        ) {
            Some(rest) => Some(scalars_slots(scalars, room) + rest),
            None => None,
        }),
    decreases scalars.len(),
{
    let rest = raw.skip(i as int);
    if scalars.len() == 0 {
        assert(scalars_bytes(scalars) =~= Seq::<u8>::empty());
        assert(scalars_slots(scalars, room) =~= Seq::<QuerySlot>::empty());
        if room == 0 {
            assert(slots_from(raw, i, room) =~= Some(scalars_slots(scalars, room)));
        } else if let Some(more) = slots_from(raw, i, room) {
            assert(scalars_slots(scalars, room) + more =~= more);
        }
    } else if room == 0 {
        assert(scalars_slots(scalars, room) =~= Seq::<QuerySlot>::empty());
    } else {
        let first = scalars[0];
        let others = scalars.drop_first();
        let bytes = scalar_bytes(first);
        let value = match first {
            Scalar::Signed(v) => pattern32(v),
            Scalar::Unsigned(v) => v as nat,
            Scalar::Float(bits) => bits as nat,
            Scalar::Long(v) => {
                lemma_le_bytes_len(v as nat, 8);
                0
            },
            Scalar::Wildcard => 0,
        };
        lemma_radix_powers();
        lemma_le_bytes_len(value, 4);
        law_le_bytes_read_back(value, 4);
        let n = bytes.len();
        let after = scalars_bytes(others) + tail;
        assert(rest =~= bytes + after);
        assert(rest.len() == raw.len() - i);
        assert(rest[0] == bytes[0]);
        assert(raw[i as int] == rest[0]);
        assert(raw.skip((i + n) as int) =~= rest.skip(n as int));
        assert(rest.skip(n as int) =~= after);
        lemma_scalars_first(raw, i + n, others, tail, (room - 1) as nat);
        if first is Signed || first is Unsigned {
            assert(raw.subrange(i as int + 1, i as int + 5) =~= le_bytes(value, 4)) by {
                assert forall|k: int| 0 <= k < 4 implies raw[i + 1 + k] == le_bytes(value, 4)[k] by {
                    assert(raw[i + 1 + k] == rest[1 + k]);
                    assert(rest[1 + k] == bytes[1 + k]);
                }
            }
        }
        assert(scalars_bytes(scalars).len() == n + scalars_bytes(others).len());
        assert(scalars_slots(scalars, room) =~= seq![scalar_slot(first)] + scalars_slots(
            others,
            (room - 1) as nat,
        ));
        assert(slots_from(raw, i, room) == preceded_by(
            scalar_slot(first),
            slots_from(raw, i + n, (room - 1) as nat),
        ));
        if scalars.len() < room {
            if let Some(more) = slots_from(
                raw,
                i + scalars_bytes(scalars).len(),
                (room - scalars.len()) as nat,
            ) {
                assert(scalars_slots(scalars, room) + more =~= seq![scalar_slot(first)] + (
                scalars_slots(others, (room - 1) as nat) + more));
            }
        }
    }
}

/// A search: the mark of tagged values, the task, and what follows.
pub open spec fn search_bytes(task: u8, scalars: Seq<Scalar>, tail: Seq<u8>) -> Seq<u8> {
    seq![0x15u8, 0x03u8, task] + (scalars_bytes(scalars) + tail)
}

proof fn lemma_search(task: u8, scalars: Seq<Scalar>, tail: Seq<u8>)
    ensures
        ({
            let raw = search_bytes(task, scalars, tail);
            let n = 3 + scalars_bytes(scalars).len();
            &&& raw.skip(n as int) == tail
            &&& n <= raw.len()
            &&& scalars.len() >= 12 ==> slots_from(raw, 0, 12) == Some(scalars_slots(scalars, 12))
            &&& scalars.len() < 12 ==> slots_from(raw, 0, 12) == (match slots_from(
                raw,
                n,
                (12 - scalars.len()) as nat,
            ) {
                Some(rest) => Some(scalars_slots(scalars, 12) + rest),
                None => None,
            })
        }),
{
    let raw = search_bytes(task, scalars, tail);
    let n = 3 + scalars_bytes(scalars).len();
    assert(raw.skip(3) =~= scalars_bytes(scalars) + tail);
    assert(raw.skip(n as int) =~= tail);
    lemma_scalars_first(raw, 3, scalars, tail, 12);
    assert(raw[0] == 0x15 && raw[1] == 0x03);
    assert(slots_from(raw, 0, 12) == slots_from(raw, 3, 12)) by {
        reveal_with_fuel(slots_from, 3);
    }
}

/// What is asked for among scalars: the number three behind the first 2079, if it is
/// below 1000 and not negative.
proof fn lemma_playlist_in(slots: Seq<QuerySlot>, p: int)
    requires
        0 <= p <= slots.len(),
        forall|q: int| 0 <= q < p ==> slots[q] != QuerySlot::Number(2079),
        p < slots.len() ==> slots[p] == QuerySlot::Number(2079),
    ensures
        playlist_in(slots) == (if p + 3 < slots.len() && slots[p + 3] is Number && 0 <= slots[p
            + 3]->Number_0 < 1000 {
            Some(slots[p + 3]->Number_0)
        } else {
            None
        }),
{
    if p < slots.len() {
        assert(anchors(slots, p));
        let c = choose|c: int| anchors(slots, c);
        assert(c == p) by {
            if c < p {
                assert(slots[c] != QuerySlot::Number(2079));
            }
            if p < c {
                assert(slots[p] != QuerySlot::Number(2079));
            }
        }
    } else if exists|c: int| anchors(slots, c) {
        let c = choose|c: int| anchors(slots, c);
        assert(slots[c] != QuerySlot::Number(2079));
    }
}

/// A search whose scalars are followed by a zero, or by nothing, asks for the number
/// that stands three behind the first 2079 among the first twelve scalars, if there
/// is one and it is at least 0 and below 1000; else for none.
pub proof fn law_search_by_its_scalars(task: u8, scalars: Seq<Scalar>, tail: Seq<u8>, p: int)
    requires
        tail.len() == 0 || tail[0] == 0 || scalars.len() >= 12,
        0 <= p <= scalars.len(),
        forall|q: int|
            0 <= q < p ==> scalar_slot(#[trigger] scalars[q]) != QuerySlot::Number(2079),
        p < scalars.len() ==> scalar_slot(scalars[p]) == QuerySlot::Number(2079),
    ensures
        query_playlist(search_bytes(task, scalars, tail)) == (if p + 3 < scalars.len() && p + 3 < 12
            && scalar_slot(scalars[p + 3]) is Number && 0 <= scalar_slot(
            scalars[p + 3],
        )->Number_0 < 1000 {
            Some(scalar_slot(scalars[p + 3])->Number_0)
        } else {
            None
        }),
{
    let raw = search_bytes(task, scalars, tail);
    lemma_search(task, scalars, tail);
    let slots = scalars_slots(scalars, 12);
    let n = 3 + scalars_bytes(scalars).len();
    if scalars.len() < 12 {
        if tail.len() > 0 {
            assert(raw[n as int] == raw.skip(n as int)[0]);
        }
        let rest = slots_from(raw, n, (12 - scalars.len()) as nat);
        assert(rest == Some(Seq::<QuerySlot>::empty()));
        assert(slots + Seq::<QuerySlot>::empty() =~= slots);
    }
    assert(slots_from(raw, 0, 12) == Some(slots));
    let at = if p < slots.len() {
        p
    } else {
        slots.len() as int
    };
    assert forall|q: int| 0 <= q < at implies slots[q] != QuerySlot::Number(2079) by {
        assert(slots[q] == scalar_slot(scalars[q]));
    }
    lemma_playlist_in(slots, at);
}

/// A search with less than twelve scalars, behind which stands an unknown tag or a
/// value that breaks off, asks for no playlist, whatever its scalars say.
pub proof fn law_broken_search_asks_for_nothing(task: u8, scalars: Seq<Scalar>, tail: Seq<u8>)
    requires
        scalars.len() < 12,
        tail.len() > 0,
        ({
            let tag = tail[0];
            ||| tag != 0x00 && tag != 0x03 && tag != 0x07 && tag != 0x08 && tag != 0x0A && tag
                != 0x0D && tag != 0x14 && tag != 0x15
            ||| (tag == 0x07 || tag == 0x08 || tag == 0x0D) && tail.len() < 5
            ||| tag == 0x0A && tail.len() < 9
            ||| tag == 0x03 && tail.len() < 2
        }),
    ensures
        query_playlist(search_bytes(task, scalars, tail)) is None,
{
    let raw = search_bytes(task, scalars, tail);
    let n = 3 + scalars_bytes(scalars).len();
    lemma_search(task, scalars, tail);
    assert(raw[n as int] == raw.skip(n as int)[0]);
    assert(raw.len() == n + tail.len());
}

} // verus!
