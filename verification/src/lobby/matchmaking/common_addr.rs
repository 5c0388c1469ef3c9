//! The address block that a lobby advertises: six slots of four IP octets and a
//! little-endian port, then a flag byte. The first slot is the local address, and the
//! first one behind it that is set is the public address; an unset slot reads
//! `0.255.0.255`.

use crate::octets::{le_value, lemma_le_value_bound, lemma_radix_powers, read_le};
use crate::text::{append_decimal, decimal};
use vstd::prelude::*;
use vstd::slice::slice_to_vec;

verus! {

/// How many slots a block has room for.
pub const SLOTS: usize = 6;

/// How many complete slots a block holds.
pub open spec fn slot_count(blob: Seq<u8>) -> nat {
    if blob.len() / 6 < 6 {
        blob.len() / 6
    } else {
        6
    }
}

/// One slot of a block.
pub open spec fn slot_at(blob: Seq<u8>, i: int) -> Seq<u8> {
    blob.subrange(6 * i, 6 * i + 6)
}

/// Whether a slot holds no address.
pub open spec fn unset(slot: Seq<u8>) -> bool {
    slot[0] == 0 && slot[1] == 0xff && slot[2] == 0 && slot[3] == 0xff
}

/// The slots from the `i`-th on that hold an address, in order.
pub open spec fn populated_from(blob: Seq<u8>, i: nat) -> Seq<Seq<u8>>
    decreases slot_count(blob) - i,
{
    if i >= slot_count(blob) {
        Seq::empty()
    } else if unset(slot_at(blob, i as int)) {
        populated_from(blob, i + 1)
    } else {
        seq![slot_at(blob, i as int)] + populated_from(blob, i + 1)
    }
}

/// The slots that hold an address, in order.
pub open spec fn populated(blob: Seq<u8>) -> Seq<Seq<u8>> {
    populated_from(blob, 0)
}

/// The port of a slot.
pub open spec fn slot_port(slot: Seq<u8>) -> nat {
    le_value(slot.subrange(4, 6))
}

/// The public port of a block: that of the first address behind the local slot.
pub open spec fn public_port(blob: Seq<u8>) -> Option<u16> {
    if populated_from(blob, 1).len() >= 1 {
        Some(slot_port(populated_from(blob, 1)[0]) as u16)
    } else {
        None
    }
}

/// Whether the `i`-th slot of a block holds no address.
fn slot_unset(blob: &[u8], i: usize) -> (r: bool)
    requires
        i < slot_count(blob@),
    ensures
        r == unset(slot_at(blob@, i as int)),
{
    blob[6 * i] == 0 && blob[6 * i + 1] == 0xff && blob[6 * i + 2] == 0 && blob[6 * i + 3] == 0xff
}

/// The port of the `i`-th slot of a block.
fn port_at(blob: &[u8], i: usize) -> (port: u16)
    requires
        i < slot_count(blob@),
    ensures
        port == slot_port(slot_at(blob@, i as int)),
{
    let port: u64 = read_le(blob, 6 * i + 4, 2);
    proof {
        let bytes = blob@.subrange(6 * i + 4, 6 * i + 6);
        assert(slot_at(blob@, i as int).subrange(4, 6) =~= bytes);
        lemma_le_value_bound(bytes);
        lemma_radix_powers();
    }
    port as u16
}

/// How many complete slots a block holds.
fn count_slots(blob: &[u8]) -> (n: usize)
    ensures
        n == slot_count(blob@),
        6 * n <= blob.len(),
{
    if blob.len() / 6 < SLOTS {
        blob.len() / 6
    } else {
        SLOTS
    }
}

/// The public port that a lobby's address block advertises, if any.
pub fn advertised_public_port(blob: &[u8]) -> (port: Option<u16>)
    ensures
        port == public_port(blob@),
{
    let n: usize = count_slots(blob);
    let mut i: usize = 1;
    while i < n
        invariant
            1 <= i,
            n == slot_count(blob@),
            6 * n <= blob.len(),
            populated_from(blob@, 1) == populated_from(blob@, i as nat),
        decreases n - i,
    {
        if !slot_unset(blob, i) {
            return Some(port_at(blob, i));
        }
        i = i + 1;
    }
    None
}

/// The text of a slot: its address and port.
pub open spec fn slot_text(slot: Seq<u8>) -> Seq<char> {
    decimal(slot[0] as nat) + seq!['.'] + decimal(slot[1] as nat) + seq!['.'] + decimal(
        slot[2] as nat,
    ) + seq!['.'] + decimal(slot[3] as nat) + seq![':'] + decimal(slot_port(slot))
}

/// Texts one after the other, with a space before each but the first.
pub open spec fn spaced(parts: Seq<Seq<u8>>) -> Seq<char>
    decreases parts.len(),
{
    if parts.len() == 0 {
        Seq::empty()
    } else if parts.len() == 1 {
        slot_text(parts[0])
    } else {
        spaced(parts.drop_last()) + seq![' '] + slot_text(parts.last())
    }
}

/// What [`describe_common_addr`] says of a block.
pub open spec fn description(blob: Seq<u8>) -> Seq<char> {
    if populated(blob).len() == 0 {
        seq!['n', 'o', 'n', 'e']
    } else {
        spaced(populated(blob))
    }
}

/// Appends the text of the `i`-th slot of a block.
fn append_slot(out: &mut String, blob: &[u8], i: usize)
    requires
        i < slot_count(blob@),
    ensures
        final(out)@ == old(out)@ + slot_text(slot_at(blob@, i as int)),
{
    proof {
        reveal_strlit(".");
        reveal_strlit(":");
        assert("."@ =~= seq!['.']);
        assert(":"@ =~= seq![':']);
    }
    append_decimal(out, blob[6 * i] as u64);
    out.append(".");
    append_decimal(out, blob[6 * i + 1] as u64);
    out.append(".");
    append_decimal(out, blob[6 * i + 2] as u64);
    out.append(".");
    append_decimal(out, blob[6 * i + 3] as u64);
    out.append(":");
    append_decimal(out, port_at(blob, i) as u64);
    proof {
        assert(out@ =~= old(out)@ + slot_text(slot_at(blob@, i as int)));
    }
}

/// The addresses that a block carries, as text.
pub fn describe_common_addr(blob: &[u8]) -> (text: String)
    ensures
        text@ == description(blob@),
{
    proof {
        reveal_strlit("none");
        reveal_strlit(" ");
        assert(" "@ =~= seq![' ']);
        assert("none"@ =~= seq!['n', 'o', 'n', 'e']);
    }
    let n: usize = count_slots(blob);
    let mut out: String = String::new();
    let mut any: bool = false;
    let mut i: usize = 0;
    let ghost mut done: Seq<Seq<u8>> = Seq::empty();
    proof {
        assert(done + populated_from(blob@, 0) =~= populated(blob@));
    }
    while i < n
        invariant
            i <= n,
            n == slot_count(blob@),
            6 * n <= blob.len(),
            done + populated_from(blob@, i as nat) == populated(blob@),
            any == (done.len() > 0),
            out@ == spaced(done),
            " "@ == seq![' '],
        decreases n - i,
    {
        if !slot_unset(blob, i) {
            let ghost slot = slot_at(blob@, i as int);
            let ghost rest = populated_from(blob@, (i + 1) as nat);
            if any {
                out.append(" ");
            }
            append_slot(&mut out, blob, i);
            any = true;
            proof {
                let next = done.push(slot);
                assert(next.drop_last() =~= done);
                assert(next + rest =~= done + (seq![slot] + rest));
                assert(out@ =~= spaced(next));
                done = next;
            }
        }
        i = i + 1;
    }
    proof {
        assert(done + populated_from(blob@, n as nat) =~= done);
    }
    if any {
        out
    } else {
        "none".to_string()
    }
}

/// Whether the byte at `k` belongs to a slot that holds an address.
pub open spec fn in_populated_slot(blob: Seq<u8>, k: int) -> bool {
    k / 6 < slot_count(blob) && !unset(slot_at(blob, k / 6))
}

/// A block with every address in it replaced by `slot`; unset slots and what
/// follows the slots stay as they are.
pub open spec fn redirected(blob: Seq<u8>, slot: Seq<u8>) -> Seq<u8> {
    Seq::new(
        blob.len(),
        |k: int|
            if in_populated_slot(blob, k) {
                slot[k % 6]
            } else {
                blob[k]
            },
    )
}

/// Replaces every address of a block by `slot`.
pub fn redirect_common_addr(blob: &[u8], slot: [u8; 6]) -> (out: Vec<u8>)
    ensures
        out@ == redirected(blob@, slot@),
{
    let n: usize = count_slots(blob);
    let mut out: Vec<u8> = slice_to_vec(blob);
    let mut i: usize = 0;
    while i < n
        invariant
            i <= n,
            n == slot_count(blob@),
            6 * n <= blob.len(),
            out@.len() == blob@.len(),
            forall|k: int| 0 <= k < 6 * i ==> out@[k] == redirected(blob@, slot@)[k],
            forall|k: int| 6 * i <= k < blob@.len() ==> out@[k] == blob@[k],
        decreases n - i,
    {
        if !slot_unset(blob, i) {
            let mut j: usize = 0;
            while j < 6
                invariant
                    j <= 6,
                    i < n,
                    n == slot_count(blob@),
                    6 * n <= blob.len(),
                    !unset(slot_at(blob@, i as int)),
                    out@.len() == blob@.len(),
                    forall|k: int|
                        0 <= k < 6 * i + j ==> out@[k] == redirected(blob@, slot@)[k],
                    forall|k: int| 6 * i + j <= k < blob@.len() ==> out@[k] == blob@[k],
                decreases 6 - j,
            {
                proof {
                    assert((6 * i + j) / 6 == i && (6 * i + j) % 6 == j);
                }
                out.set(6 * i + j, slot[j]);
                j = j + 1;
            }
        }
        i = i + 1;
    }
    proof {
        assert(out@ =~= redirected(blob@, slot@));
    }
    out
}

/// Every address that a redirected block carries, from the `i`-th slot on, is the
/// new one, and there are as many as before.
proof fn lemma_redirected_from(blob: Seq<u8>, slot: Seq<u8>, i: nat)
    requires
        slot.len() == 6,
        !unset(slot),
    ensures
        populated_from(redirected(blob, slot), i).len() == populated_from(blob, i).len(),
        forall|k: int|
            0 <= k < populated_from(blob, i).len() ==> #[trigger] populated_from(
                redirected(blob, slot),
                i,
            )[k] == slot,
    decreases slot_count(blob) - i,
{
    let out = redirected(blob, slot);
    if i < slot_count(blob) {
        lemma_redirected_from(blob, slot, i + 1);
        if unset(slot_at(blob, i as int)) {
            assert forall|k: int| 0 <= k < 6 implies slot_at(out, i as int)[k] == slot_at(
                blob,
                i as int,
            )[k] by {
                assert((6 * i + k) / 6 == i);
                assert(!in_populated_slot(blob, 6 * i + k));
            }
            assert(slot_at(out, i as int) =~= slot_at(blob, i as int));
        } else {
            assert forall|k: int| 0 <= k < 6 implies slot_at(out, i as int)[k] == slot[k] by {
                assert((6 * i + k) / 6 == i && (6 * i + k) % 6 == k);
                assert(in_populated_slot(blob, 6 * i + k));
            }
            assert(slot_at(out, i as int) =~= slot);
        }
    }
}

/// A redirected block carries as many addresses as before, each of them the new
/// one, unless the new address itself reads as an unset slot.
pub proof fn law_redirected_addresses(blob: Seq<u8>, slot: Seq<u8>)
    requires
        slot.len() == 6,
        !unset(slot),
    ensures
        redirected(blob, slot).len() == blob.len(),
        populated(redirected(blob, slot)) == Seq::new(populated(blob).len(), |k: int| slot),
{
    lemma_redirected_from(blob, slot, 0);
    assert(populated(redirected(blob, slot)) =~= Seq::new(populated(blob).len(), |k: int| slot));
}

} // verus!
