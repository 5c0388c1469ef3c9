//! The playlist that a lobby search asks for.
//!
//! A search is a run of tagged scalars. After the task come three unsigned
//! numbers, then signed ones: some number, the netcode version, a number that may
//! be a wildcard, the playlist version and the playlist number. The netcode
//! version is the anchor; the playlist number stands three scalars behind it.

use crate::octets::{
    law_le_bytes_read_back, le_bytes, le_value, lemma_le_bytes_len, lemma_le_value_bound,
    lemma_radix_powers, read_le, signed32, to_signed32,
};
use vstd::prelude::*;

verus! {

/// Playlist numbers from this one on are grouping numbers, not playlists.
pub const PLAYLIST_GROUPING_MIN: i32 = 1000;

/// The netcode version that anchors a search.
pub const NETCODE_VERSION: i32 = 2079;

/// How many scalars of a search are looked at.
pub const SLOT_LIMIT: usize = 12;

/// One scalar of a search.
#[derive(Debug, Copy, Clone, PartialEq, Eq, Structural)]
pub enum QuerySlot {
    /// A 32-bit number, signed or unsigned, taken as signed.
    Number(i32),
    /// A scalar of another kind.
    Other,
    /// A wildcard.
    DontCare,
}

/// Puts a scalar in front of those that follow it.
pub open spec fn preceded_by(slot: QuerySlot, rest: Option<Seq<QuerySlot>>) -> Option<
    Seq<QuerySlot>,
> {
    match rest {
        Some(slots) => Some(seq![slot] + slots),
        None => None,
    }
}

/// The scalars from byte `i` on, at most `room` of them; nothing if the bytes
/// break off inside a value or hold an unknown tag.
pub open spec fn slots_from(raw: Seq<u8>, i: nat, room: nat) -> Option<Seq<QuerySlot>>
    decreases
            if i < raw.len() {
                raw.len() - i
            } else {
                0
            },
{
    if i >= raw.len() || room == 0 {
        Some(Seq::empty())
    } else {
        let tag = raw[i as int];
        if tag == 0x15 {
            slots_from(raw, i + 1, room)
        } else if tag == 0x03 {
            if i + 2 <= raw.len() {
                slots_from(raw, i + 2, room)
            } else {
                None
            }
        } else if tag == 0x07 || tag == 0x08 {
            if i + 5 <= raw.len() {
                let n = signed32(le_value(raw.subrange(i as int + 1, i as int + 5)) as int) as i32;
                preceded_by(QuerySlot::Number(n), slots_from(raw, i + 5, (room - 1) as nat))
            } else {
                None
            }
        } else if tag == 0x0d {
            if i + 5 <= raw.len() {
                preceded_by(QuerySlot::Other, slots_from(raw, i + 5, (room - 1) as nat))
            } else {
                None
            }
        } else if tag == 0x0a {
            if i + 9 <= raw.len() {
                preceded_by(QuerySlot::Other, slots_from(raw, i + 9, (room - 1) as nat))
            } else {
                None
            }
        } else if tag == 0x14 {
            preceded_by(QuerySlot::DontCare, slots_from(raw, i + 1, (room - 1) as nat))
        } else if tag == 0x00 {
            Some(Seq::empty())
        } else {
            None
        }
    }
}

/// Whether `p` is the place of the first netcode version.
pub open spec fn anchors(slots: Seq<QuerySlot>, p: int) -> bool {
    &&& 0 <= p < slots.len()
    &&& slots[p] == QuerySlot::Number(NETCODE_VERSION)
    &&& forall|q: int| 0 <= q < p ==> slots[q] != QuerySlot::Number(NETCODE_VERSION)
}

/// The playlist number among the scalars of a search.
pub open spec fn playlist_in(slots: Seq<QuerySlot>) -> Option<i32> {
    if exists|p: int| anchors(slots, p) {
        let p = choose|p: int| anchors(slots, p);
        if p + 3 < slots.len() {
            match slots[p + 3] {
                QuerySlot::Number(n) if 0 <= n < PLAYLIST_GROUPING_MIN => Some(n),
                _ => None,
            }
        } else {
            None
        }
    } else {
        None
    }
}

/// The playlist that a search asks for.
pub open spec fn query_playlist(raw: Seq<u8>) -> Option<i32> {
    match slots_from(raw, 0, SLOT_LIMIT as nat) {
        Some(slots) => playlist_in(slots),
        None => None,
    }
}

/// The scalars of a search.
fn scan(raw: &[u8]) -> (r: Option<Vec<QuerySlot>>)
    ensures
        match r {
            Some(slots) => slots_from(raw@, 0, SLOT_LIMIT as nat) == Some(slots@),
            None => slots_from(raw@, 0, SLOT_LIMIT as nat) is None,
        },
{
    let mut i: usize = 0;
    let mut slots: Vec<QuerySlot> = Vec::new();
    proof {
        assert(match slots_from(raw@, 0, SLOT_LIMIT as nat) {
            Some(rest) => slots@ + rest =~= rest,
            None => true,
        });
    }
    while i < raw.len() && slots.len() < SLOT_LIMIT
        invariant
            i <= raw.len(),
            slots@.len() <= SLOT_LIMIT,
            match slots_from(raw@, i as nat, (SLOT_LIMIT - slots@.len()) as nat) {
                Some(rest) => slots_from(raw@, 0, SLOT_LIMIT as nat) == Some(slots@ + rest),
                None => slots_from(raw@, 0, SLOT_LIMIT as nat) is None,
            },
        decreases raw.len() - i,
    {
        let tag: u8 = raw[i];
        let ghost room = (SLOT_LIMIT - slots@.len()) as nat;
        let ghost before = slots@;
        let ghost at = i as nat;
        if tag == 0x15 {
            i = i + 1;
        } else if tag == 0x03 {
            if raw.len() - i < 2 {
                return None;
            }
            i = i + 2;
        } else if tag == 0x07 || tag == 0x08 {
            if raw.len() - i < 5 {
                return None;
            }
            let bits: u64 = read_le(raw, i + 1, 4);
            proof {
                lemma_le_value_bound(raw@.subrange(at as int + 1, at as int + 5));
                lemma_radix_powers();
            }
            let n: i32 = to_signed32(bits as u32);
            slots.push(QuerySlot::Number(n));
            proof {
                lemma_pushed(before, QuerySlot::Number(n), slots_from(raw@, at + 5, (room - 1) as nat));
            }
            i = i + 5;
        } else if tag == 0x0d {
            if raw.len() - i < 5 {
                return None;
            }
            slots.push(QuerySlot::Other);
            proof {
                lemma_pushed(before, QuerySlot::Other, slots_from(raw@, at + 5, (room - 1) as nat));
            }
            i = i + 5;
        } else if tag == 0x0a {
            if raw.len() - i < 9 {
                return None;
            }
            slots.push(QuerySlot::Other);
            proof {
                lemma_pushed(before, QuerySlot::Other, slots_from(raw@, at + 9, (room - 1) as nat));
            }
            i = i + 9;
        } else if tag == 0x14 {
            slots.push(QuerySlot::DontCare);
            proof {
                lemma_pushed(
                    before,
                    QuerySlot::DontCare,
                    slots_from(raw@, at + 1, (room - 1) as nat),
                );
            }
            i = i + 1;
        } else if tag == 0x00 {
            proof {
                assert(slots@ + Seq::<QuerySlot>::empty() =~= slots@);
            }
            return Some(slots);
        } else {
            return None;
        }
    }
    proof {
        assert(slots@ + Seq::<QuerySlot>::empty() =~= slots@);
    }
    Some(slots)
}

/// A scalar appended to those before it is one in front of those behind it.
proof fn lemma_pushed(before: Seq<QuerySlot>, slot: QuerySlot, rest: Option<Seq<QuerySlot>>)
    ensures
        rest matches Some(slots) ==> before + (seq![slot] + slots) == before.push(slot) + slots,
{
    if let Some(slots) = rest {
        assert(before + (seq![slot] + slots) =~= before.push(slot) + slots);
    }
}

/// Pulls the requested playlist number out of a raw search.
///
/// There is none on a message that does not parse, and none where the number is a
/// grouping number or a wildcard.
pub fn parse_query_playlist(raw: &[u8]) -> (playlist: Option<i32>)
    ensures
        playlist == query_playlist(raw@),
{
    let slots: Vec<QuerySlot> = match scan(raw) {
        Some(slots) => slots,
        None => return None,
    };
    let mut p: usize = 0;
    while p < slots.len()
        invariant
            p <= slots@.len(),
            slots_from(raw@, 0, SLOT_LIMIT as nat) == Some(slots@),
            forall|q: int| 0 <= q < p ==> slots@[q] != QuerySlot::Number(NETCODE_VERSION),
        decreases slots@.len() - p,
    {
        if slots[p] == QuerySlot::Number(NETCODE_VERSION) {
            proof {
                assert(anchors(slots@, p as int));
                let chosen = choose|c: int| anchors(slots@, c);
                assert(chosen == p) by {
                    if chosen < p {
                        assert(slots@[chosen] != QuerySlot::Number(NETCODE_VERSION));
                    }
                    if p < chosen {
                        assert(slots@[p as int] != QuerySlot::Number(NETCODE_VERSION));
                    }
                }
            }
            if slots.len() - p > 3 {
                return match slots[p + 3] {
                    QuerySlot::Number(n) if 0 <= n && n < PLAYLIST_GROUPING_MIN => Some(n),
                    _ => None,
                };
            }
            return None;
        }
        p = p + 1;
    }
    None
}

/// A scalar as a console writes it into a search.
pub ghost enum Scalar {
    Signed(i32),
    Unsigned(u32),
    /// A single-precision number, given by its bit pattern.
    Float(u32),
    Long(u64),
    Wildcard,
}

/// The 32-bit pattern of a signed number, in two's complement.
pub open spec fn pattern32(v: i32) -> nat {
    if v < 0 {
        (v + 0x1_0000_0000) as nat
    } else {
        v as nat
    }
}

/// The bytes of a scalar: its tag, and its value where it has one.
pub open spec fn scalar_bytes(scalar: Scalar) -> Seq<u8> {
    match scalar {
        Scalar::Signed(v) => seq![0x07u8] + le_bytes(pattern32(v), 4),
        Scalar::Unsigned(v) => seq![0x08u8] + le_bytes(v as nat, 4),
        Scalar::Float(bits) => seq![0x0du8] + le_bytes(bits as nat, 4),
        Scalar::Long(v) => seq![0x0au8] + le_bytes(v as nat, 8),
        Scalar::Wildcard => seq![0x14u8],
    }
}

/// What a scalar is read as.
pub open spec fn scalar_slot(scalar: Scalar) -> QuerySlot {
    match scalar {
        Scalar::Signed(v) => QuerySlot::Number(v),
        Scalar::Unsigned(v) => QuerySlot::Number(signed32(v as int) as i32),
        Scalar::Float(_) => QuerySlot::Other,
        Scalar::Long(_) => QuerySlot::Other,
        Scalar::Wildcard => QuerySlot::DontCare,
    }
}

/// The bytes of scalars, one after the other.
pub open spec fn scalars_bytes(scalars: Seq<Scalar>) -> Seq<u8>
    decreases scalars.len(),
{
    if scalars.len() == 0 {
        Seq::empty()
    } else {
        scalar_bytes(scalars[0]) + scalars_bytes(scalars.drop_first())
    }
}

/// What scalars are read as, as far as they are looked at.
pub open spec fn scalars_slots(scalars: Seq<Scalar>, room: nat) -> Seq<QuerySlot> {
    Seq::new(
        if scalars.len() < room {
            scalars.len()
        } else {
            room
        },
        |k: int| scalar_slot(scalars[k]),
    )
}

proof fn lemma_scalars_read_back(
    raw: Seq<u8>,
    i: nat,
    scalars: Seq<Scalar>,
    junk: Seq<u8>,
    room: nat,
)
    requires
        i <= raw.len(),
        raw.skip(i as int) == scalars_bytes(scalars) + seq![0x00u8] + junk,
    ensures
        slots_from(raw, i, room) == Some(scalars_slots(scalars, room)),
    decreases scalars.len(),
{
    let rest = raw.skip(i as int);
    assert(rest.len() > 0);
    assert(raw[i as int] == rest[0]);
    if room == 0 {
        assert(scalars_slots(scalars, room) =~= Seq::<QuerySlot>::empty());
    } else if scalars.len() == 0 {
        assert(rest[0] == 0x00);
        assert(scalars_slots(scalars, room) =~= Seq::<QuerySlot>::empty());
    } else {
        let first = scalars[0];
        let others = scalars.drop_first();
        let bytes = scalar_bytes(first);
        let tail = scalars_bytes(others) + seq![0x00u8] + junk;
        assert(rest =~= bytes + tail);
        assert(rest[0] == bytes[0]);
        let value = match first {
            Scalar::Signed(v) => pattern32(v),
            Scalar::Unsigned(v) => v as nat,
            Scalar::Float(bits) => bits as nat,
            Scalar::Long(v) => {
                lemma_le_bytes_len(v as nat, 8);
                0
            },
            Scalar::Wildcard => 0,
        };
        lemma_radix_powers();
        lemma_le_bytes_len(value, 4);
        law_le_bytes_read_back(value, 4);
        let n = bytes.len();
        assert(raw.skip((i + n) as int) =~= rest.skip(n as int));
        assert(rest.skip(n as int) =~= tail);
        lemma_scalars_read_back(raw, i + n, others, junk, (room - 1) as nat);
        if first is Signed || first is Unsigned {
            assert(raw.subrange(i as int + 1, i as int + 5) =~= le_bytes(value, 4)) by {
                assert forall|k: int| 0 <= k < 4 implies raw[i + 1 + k] == le_bytes(value, 4)[k] by {
                    assert(raw[i + 1 + k] == rest[1 + k]);
                    assert(rest[1 + k] == bytes[1 + k]);
                }
            }
        }
        assert(scalars_slots(scalars, room) =~= seq![scalar_slot(first)] + scalars_slots(
            others,
            (room - 1) as nat,
        ));
    }
}

/// A search that a console writes asks for the playlist that stands three scalars
/// behind the netcode version, strict or relaxed, unless what stands there is a
/// wildcard, a grouping number or no 32-bit number; whatever follows the scalars
/// plays no part.
pub proof fn law_search_asks_for_its_playlist(
    task: u8,
    scalars: Seq<Scalar>,
    junk: Seq<u8>,
    p: int,
)
    requires
        0 <= p,
        p + 3 < scalars.len(),
        p + 3 < SLOT_LIMIT,
        scalar_slot(scalars[p]) == QuerySlot::Number(NETCODE_VERSION),
        forall|q: int|
            0 <= q < p ==> scalar_slot(#[trigger] scalars[q]) != QuerySlot::Number(NETCODE_VERSION),
    ensures
        query_playlist(
            seq![0x15u8, 0x03u8, task] + (scalars_bytes(scalars) + seq![0x00u8] + junk),
        ) == (match scalar_slot(scalars[p + 3]) {
            QuerySlot::Number(n) if 0 <= n < PLAYLIST_GROUPING_MIN => Some(n),
            _ => None,
        }),
{
    let body = scalars_bytes(scalars) + seq![0x00u8] + junk;
    let raw = seq![0x15u8, 0x03u8, task] + body;
    assert(raw.skip(3) =~= body);
    lemma_scalars_read_back(raw, 3, scalars, junk, SLOT_LIMIT as nat);
    assert(slots_from(raw, 0, SLOT_LIMIT as nat) == slots_from(raw, 3, SLOT_LIMIT as nat)) by {
        reveal_with_fuel(slots_from, 3);
        assert(raw[0] == 0x15 && raw[1] == 0x03);
    }
    let slots = scalars_slots(scalars, SLOT_LIMIT as nat);
    assert(anchors(slots, p)) by {
        assert forall|q: int| 0 <= q < p implies slots[q] != QuerySlot::Number(NETCODE_VERSION) by {
            assert(slots[q] == scalar_slot(scalars[q]));
        }
    }
    let c = choose|c: int| anchors(slots, c);
    assert(anchors(slots, c));
    assert(c == p) by {
        if c < p {
            assert(slots[c] != QuerySlot::Number(NETCODE_VERSION));
        }
        if p < c {
            assert(slots[p] != QuerySlot::Number(NETCODE_VERSION));
        }
    }
}

} // verus!
