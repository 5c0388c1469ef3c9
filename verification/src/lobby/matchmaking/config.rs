//! Switches that narrow or rewrite what a search hands out.

use crate::octets::le_value;
use crate::peer::Peer;
use vstd::prelude::*;

verus! {

/// How the matchmaking service behaves.
pub struct MatchmakingConfig {
    /// The addresses that lobbies may be handed to, as text; empty for all.
    pub row_allowlist: Vec<String>,
    /// Whether an announcement is answered with the id of the lobby.
    pub reply_with_id: bool,
    /// Whether rows hand out a zero security id.
    pub zero_sec_id: bool,
    /// Whether one host is elected for all who search.
    pub asymmetric: bool,
    /// An address that rows hand out in place of the host's own ones.
    pub sink: Option<[u8; 6]>,
    /// The only address, as text, that the sink is meant for; none for all.
    pub sink_for: Option<String>,
}

/// Whether a caller may be handed lobbies: nothing narrows them down, or the
/// caller's address is listed.
pub open spec fn listed(allowlist: Seq<String>, peer: Option<Peer>) -> bool {
    allowlist.len() == 0 || (peer matches Some(p) && exists|i: int|
        0 <= i < allowlist.len() && #[trigger] allowlist[i]@ == p.text@)
}

/// The address that a caller's rows hand out in place of the host's own ones.
pub open spec fn sink_of(config: MatchmakingConfig, peer: Option<Peer>) -> Option<[u8; 6]> {
    match (config.sink, config.sink_for) {
        (Some(slot), Some(only)) => if peer matches Some(p) && p.text@ == only@ {
            Some(slot)
        } else {
            None
        },
        (Some(slot), None) => Some(slot),
        (None, _) => None,
    }
}

/// Whether a caller may be handed lobbies.
pub fn may_receive_rows(config: &MatchmakingConfig, peer: &Option<Peer>) -> (r: bool)
    ensures
        r == listed(config.row_allowlist@, *peer),
{
    if config.row_allowlist.len() == 0 {
        return true;
    }
    match peer {
        Some(p) => {
            let mut i: usize = 0;
            while i < config.row_allowlist.len()
                invariant
                    i <= config.row_allowlist@.len(),
                    *peer == Some(*p),
                    forall|k: int|
                        0 <= k < i ==> #[trigger] config.row_allowlist@[k]@ != p.text@,
                decreases config.row_allowlist@.len() - i,
            {
                if config.row_allowlist[i] == p.text {
                    proof {
                        assert(config.row_allowlist@[i as int]@ == p.text@);
                    }
                    return true;
                }
                i = i + 1;
            }
            false
        },
        None => false,
    }
}

/// The address that a caller's rows hand out in place of the host's own ones.
pub fn stage1_sink(config: &MatchmakingConfig, peer: &Option<Peer>) -> (sink: Option<[u8; 6]>)
    ensures
        sink == sink_of(*config, *peer),
{
    match config.sink {
        Some(slot) => match &config.sink_for {
            Some(only) => match peer {
                Some(p) => if p.text == *only {
                    Some(slot)
                } else {
                    None
                },
                None => None,
            },
            None => Some(slot),
        },
        None => None,
    }
}

/// The slot of an address block that holds an address and a port.
pub fn sink_slot(octets: [u8; 4], port: u16) -> (slot: [u8; 6])
    ensures
        slot@.take(4) == octets@,
        le_value(slot@.skip(4)) == port,
{
    let slot: [u8; 6] = [
        octets[0],
        octets[1],
        octets[2],
        octets[3],
        (port % 256) as u8,
        (port / 256) as u8,
    ];
    proof {
        assert(slot@.take(4) =~= octets@);
        let tail = slot@.skip(4);
        reveal_with_fuel(le_value, 3);
        assert(tail.drop_first().drop_first() =~= Seq::<u8>::empty());
    }
    slot
}

/// A letter of the Latin alphabet in lower case; any other character as it is.
pub open spec fn lower(c: char) -> char {
    if 'A' <= c && c <= 'Z' {
        (c as u32 + 32) as char
    } else {
        c
    }
}

/// Whether a setting spells the word that switches the id off, in any case.
pub open spec fn says_none(setting: Seq<char>) -> bool {
    setting.map_values(|c: char| lower(c)) == seq!['n', 'o', 'n', 'e']
}

/// Whether an announcement is answered with the id of the lobby: unless the
/// setting is there and says no.
pub fn create_session_reply_has_id(setting: Option<&str>) -> (r: bool)
    ensures
        r == !(setting matches Some(s) && says_none(s@)),
{
    match setting {
        Some(s) => {
            if s.unicode_len() != 4 {
                proof {
                    assert(s@.map_values(|c: char| lower(c)).len() == s@.len());
                }
                return true;
            }
            let a: char = s.get_char(0);
            let b: char = s.get_char(1);
            let c: char = s.get_char(2);
            let d: char = s.get_char(3);
            let none: bool = (a == 'n' || a == 'N') && (b == 'o' || b == 'O') && (c == 'n' || c
                == 'N') && (d == 'e' || d == 'E');
            proof {
                let lowered = s@.map_values(|c: char| lower(c));
                if none {
                    assert(lowered =~= seq!['n', 'o', 'n', 'e']);
                }
                if lowered == seq!['n', 'o', 'n', 'e'] {
                    assert(lowered[0] == lower(a) && lowered[0] == 'n');
                    assert(lowered[1] == lower(b) && lowered[1] == 'o');
                    assert(lowered[2] == lower(c) && lowered[2] == 'n');
                    assert(lowered[3] == lower(d) && lowered[3] == 'e');
                }
            }
            !none
        },
        None => true,
    }
}

} // verus!
