//! Which principal id authenticated from which address, and what follows from a
//! principal id.

use super::ticket::NAME_MAX_LEN;
use crate::peer::{lookup, AddrMap, IpAddr};
use crate::text::{append_decimal, decimal, lemma_decimal_shape, power_of_ten};
use vstd::prelude::*;
use vstd::utf8::{encode_utf8, is_ascii_chars, is_ascii_chars_encode_utf8};

verus! {

/// The principal id of a client that never showed one.
pub const DEFAULT_PID: u64 = 1_768_140_980;

/// What a storage identity has above its principal id: the mark of the platform.
pub const DWID_BASE: u64 = 0xBD00_0000_0000;

/// Remembers which principal id authenticated from an address.
pub fn remember_pid(pids: &mut AddrMap<u64>, addr: IpAddr, pid: u64)
    requires
        old(pids).wf(),
    ensures
        final(pids).wf(),
        final(pids)@ == old(pids)@.insert(addr, pid),
{
    pids.insert(addr, pid);
}

/// The principal id that authenticated from an address last.
pub fn recall_pid(pids: &AddrMap<u64>, addr: &IpAddr) -> (pid: Option<u64>)
    requires
        pids.wf(),
    ensures
        pid == lookup(pids@, *addr),
{
    pids.get(addr)
}

/// The principal id of a client, where its address is known and authenticated.
pub open spec fn pid_of(pids: Map<IpAddr, u64>, addr: Option<IpAddr>) -> Option<u64> {
    match addr {
        Some(ip) => lookup(pids, ip),
        None => None,
    }
}

/// The principal id of a client, where its address is known and authenticated.
pub fn recall_peer(pids: &AddrMap<u64>, addr: Option<IpAddr>) -> (pid: Option<u64>)
    requires
        pids.wf(),
    ensures
        pid == pid_of(pids@, addr),
{
    match addr {
        Some(ip) => recall_pid(pids, &ip),
        None => None,
    }
}

/// What was remembered last of an address is recalled, and clients at other
/// addresses keep their own identity.
pub proof fn law_remembered_is_recalled(
    pids: Map<IpAddr, u64>,
    addr: IpAddr,
    pid: u64,
    other: IpAddr,
)
    ensures
        lookup(pids.insert(addr, pid), addr) == Some(pid),
        other != addr ==> lookup(pids.insert(addr, pid), other) == lookup(pids, other),
{
}

/// The storage identity of a principal id: the mark of the platform above it.
pub open spec fn dwid_of(pid: u64) -> u64 {
    DWID_BASE | pid
}

/// The storage identity of a principal id.
pub fn dwid(pid: u64) -> (id: u64)
    ensures
        id == dwid_of(pid),
{
    DWID_BASE | pid
}

/// A storage identity holds its principal id in the low half and the mark of the
/// platform above it, so that different principal ids have different ones.
pub proof fn law_dwid_holds_pid(pid: u64)
    requires
        pid < 0x1_0000_0000,
    ensures
        dwid_of(pid) == DWID_BASE + pid,
        dwid_of(pid) % 0x1_0000_0000 == pid,
        dwid_of(pid) / 0x1_0000_0000 == 0xBD00,
{
    assert(0xBD00_0000_0000u64 | pid == 0xBD00_0000_0000u64 + pid) by (bit_vector)
        requires
            pid < 0x1_0000_0000u64,
    ;
}

/// The name of a client.
pub open spec fn username_of(pid: u64) -> Seq<char> {
    "WiiUUser"@ + decimal(pid as nat)
}

/// The name of a client.
pub fn username(pid: u64) -> (name: String)
    ensures
        name@ == username_of(pid),
{
    let mut name: String = "WiiUUser".to_string();
    append_decimal(&mut name, pid);
    name
}

/// The name of every client finds room in a ticket.
pub proof fn law_username_fits(pid: u64)
    ensures
        encode_utf8(username_of(pid)).len() <= NAME_MAX_LEN,
{
    reveal_with_fuel(power_of_ten, 21);
    lemma_decimal_shape(pid as nat, 20);
    reveal_strlit("WiiUUser");
    assert(is_ascii_chars("WiiUUser"@));
    assert(is_ascii_chars(username_of(pid)));
    is_ascii_chars_encode_utf8(username_of(pid));
}

/// The session key that every console is given.
pub open spec fn wiiu_session_key() -> Seq<u8> {
    seq![
        0x01u8, 0x23u8, 0x45u8, 0x67u8, 0x89u8, 0xABu8, 0xCDu8, 0xEFu8,
        0xFEu8, 0xDCu8, 0xBAu8, 0x98u8, 0x76u8, 0x54u8, 0x32u8, 0x10u8,
        0x55u8, 0xAAu8, 0x55u8, 0xAAu8, 0x33u8, 0xCCu8, 0x33u8, 0xCCu8,
    ]
}

/// The session key that every console is given.
pub fn session_key() -> (key: [u8; 24])
    ensures
        key@ == wiiu_session_key(),
{
    let key: [u8; 24] = [
        0x01, 0x23, 0x45, 0x67, 0x89, 0xAB, 0xCD, 0xEF,
        0xFE, 0xDC, 0xBA, 0x98, 0x76, 0x54, 0x32, 0x10,
        0x55, 0xAA, 0x55, 0xAA, 0x33, 0xCC, 0x33, 0xCC,
    ];
    proof {
        assert(key@ =~= wiiu_session_key());
    }
    key
}

} // verus!
