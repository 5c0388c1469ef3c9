//! The service token that a console sends along, and the principal id inside it.

use super::base64::{
    base64_char, decode_b64, decoded, encoded, is_b64, law_decode_inverts_encode, sextets,
};
use crate::digest::{tiger192, tiger_digest};
use crate::octets::{
    be_bytes, be_u32, be_value, lemma_be_bytes_len, lemma_be_value_bound, lemma_radix_powers,
    read_be_u32,
};
use vstd::prelude::*;
use vstd::slice::slice_subrange;

verus! {

/// A run of base64 characters has to be this long to be taken for a token.
pub const TOKEN_MIN_LEN: usize = 40;

/// Whether the bytes from `start` up to `end` are a run of base64 characters that
/// cannot be made longer on either side.
pub open spec fn is_run(raw: Seq<u8>, start: int, end: int) -> bool {
    &&& 0 <= start < end <= raw.len()
    &&& forall|i: int| start <= i < end ==> is_b64(#[trigger] raw[i])
    &&& start > 0 ==> !is_b64(raw[start - 1])
    &&& end < raw.len() ==> !is_b64(raw[end])
}

/// Whether a run is the longest one, and the first of those.
pub open spec fn is_longest_run(raw: Seq<u8>, start: int, end: int) -> bool {
    &&& is_run(raw, start, end)
    &&& forall|s: int, e: int| #[trigger]
        is_run(raw, s, e) ==> e - s <= end - start && (s < start ==> e - s < end - start)
}

/// Whether the service token stands at this place.
pub open spec fn is_token(raw: Seq<u8>, start: int, end: int) -> bool {
    is_longest_run(raw, start, end) && end - start >= TOKEN_MIN_LEN
}

/// The service token of a message, if it carries one.
pub open spec fn service_token(raw: Seq<u8>) -> Option<Seq<u8>> {
    if exists|start: int, end: int| is_token(raw, start, end) {
        let (start, end) = choose|start: int, end: int| is_token(raw, start, end);
        Some(raw.subrange(start, end))
    } else {
        None
    }
}

/// There is at most one place for the token.
pub proof fn law_token_is_unique(raw: Seq<u8>, start: int, end: int)
    requires
        is_token(raw, start, end),
    ensures
        service_token(raw) == Some(raw.subrange(start, end)),
{
    let (s, e) = choose|s: int, e: int| is_token(raw, s, e);
    assert(is_token(raw, s, e));
    assert(is_run(raw, s, e) && is_run(raw, start, end));
    assert(e - s == end - start);
    assert(s == start);
}

/// A message with a run that is long enough has a token.
pub proof fn law_long_run_gives_token(raw: Seq<u8>, start: int, end: int)
    requires
        is_run(raw, start, end),
        end - start >= TOKEN_MIN_LEN,
    ensures
        service_token(raw) is Some,
    decreases raw.len() - (end - start), start,
{
    if exists|s: int, e: int| #[trigger] is_run(raw, s, e) && e - s > end - start {
        let (s, e) = choose|s: int, e: int| #[trigger]
            is_run(raw, s, e) && e - s > end - start;
        law_long_run_gives_token(raw, s, e);
    } else if exists|s: int, e: int| #[trigger]
        is_run(raw, s, e) && s < start && e - s == end - start {
        let (s, e) = choose|s: int, e: int| #[trigger]
            is_run(raw, s, e) && s < start && e - s == end - start;
        law_long_run_gives_token(raw, s, e);
    } else {
        assert(is_token(raw, start, end));
    }
}

/// A message without a long run has no token.
proof fn lemma_no_token(raw: Seq<u8>)
    requires
        forall|s: int, e: int| #[trigger] is_run(raw, s, e) ==> e - s < TOKEN_MIN_LEN,
    ensures
        service_token(raw) is None,
{
    if exists|start: int, end: int| is_token(raw, start, end) {
        let (start, end) = choose|start: int, end: int| is_token(raw, start, end);
        assert(is_run(raw, start, end));
    }
}

/// Whether a place is the longest run, the first of those, among the runs that
/// end before `seen`; `(0, 0)` stands for there being none.
spec fn best_before(raw: Seq<u8>, seen: int, start: int, end: int) -> bool {
    &&& (start == 0 && end == 0) || is_run(raw, start, end) && end < seen
    &&& forall|s: int, e: int| #[trigger]
        is_run(raw, s, e) && e < seen ==> e - s <= end - start && (s < start ==> e - s < end
            - start)
}

/// Two runs that share a place are one run.
proof fn lemma_runs_do_not_overlap(raw: Seq<u8>, s: int, e: int, at: int, start: int)
    requires
        is_run(raw, s, e),
        s <= at <= e,
        0 <= start <= at <= raw.len(),
        forall|k: int| start <= k < at ==> is_b64(#[trigger] raw[k]),
        start > 0 ==> !is_b64(raw[start - 1]),
        start < at,
    ensures
        s == start,
{
    if s < start {
        assert(is_b64(raw[start - 1]));
    }
    if s > start {
        assert(is_b64(raw[s - 1]));
    }
}

/// Finds the service token in a raw message: the longest run of base64
/// characters, and the first one of several, if it is long enough.
pub fn find_service_token(raw: &[u8]) -> (token: Option<&[u8]>)
    ensures
        match token {
            Some(token) => service_token(raw@) == Some(token@),
            None => service_token(raw@) is None,
        },
{
    let mut best_start: usize = 0;
    let mut best_end: usize = 0;
    let mut run_start: usize = 0;
    let mut i: usize = 0;
    while i < raw.len()
        invariant
            run_start <= i <= raw.len(),
            best_start <= best_end <= i,
            best_before(raw@, i as int, best_start as int, best_end as int),
            forall|k: int| run_start <= k < i ==> is_b64(#[trigger] raw@[k]),
            run_start > 0 ==> !is_b64(raw@[run_start - 1]),
        decreases raw.len() - i,
    {
        let ghost old_start = best_start as int;
        let ghost old_end = best_end as int;
        let ghost opened = run_start as int;
        if !base64_char(raw[i]) {
            if i - run_start > best_end - best_start {
                best_start = run_start;
                best_end = i;
            }
            run_start = i + 1;
        }
        i = i + 1;
        proof {
            assert forall|s: int, e: int| #[trigger] is_run(raw@, s, e) && e < i implies e - s
                <= best_end - best_start && (s < best_start ==> e - s < best_end - best_start) by {
                if e == i - 1 {
                    // The run ends right before the byte just seen, which is
                    // therefore no base64 character.
                    assert(!is_b64(raw@[e]));
                    assert(is_b64(raw@[e - 1]));
                    if opened == e {
                        assert(opened > 0 && !is_b64(raw@[opened - 1]));
                    }
                    lemma_runs_do_not_overlap(raw@, s, e, e, opened);
                }
            }
            if best_start != old_start || best_end != old_end {
                assert(is_run(raw@, best_start as int, best_end as int));
            }
        }
    }
    let ghost n = raw@.len() as int;
    let ghost old_start = best_start as int;
    let ghost old_end = best_end as int;
    if raw.len() - run_start > best_end - best_start {
        best_start = run_start;
        best_end = raw.len();
    }
    proof {
        assert forall|s: int, e: int| #[trigger] is_run(raw@, s, e) implies e - s <= best_end
            - best_start && (s < best_start ==> e - s < best_end - best_start) by {
            if e == n {
                assert(is_b64(raw@[e - 1]));
                if run_start == e {
                    assert(!is_b64(raw@[run_start - 1]));
                }
                lemma_runs_do_not_overlap(raw@, s, e, e, run_start as int);
            }
        }
        if best_end > best_start {
            if best_end == n && best_start == run_start {
                assert(is_run(raw@, best_start as int, best_end as int));
            }
        }
    }
    if best_end - best_start >= TOKEN_MIN_LEN {
        proof {
            assert(is_token(raw@, best_start as int, best_end as int));
            law_token_is_unique(raw@, best_start as int, best_end as int);
        }
        Some(slice_subrange(raw, best_start, best_end))
    } else {
        proof {
            lemma_no_token(raw@);
        }
        None
    }
}

/// The principal id that a message carries: the first four bytes of its token,
/// most significant first.
pub open spec fn pid_in(raw: Seq<u8>) -> Option<nat> {
    match service_token(raw) {
        Some(token) => {
            let bytes = decoded(sextets(token));
            if bytes.len() >= 4 {
                Some(be_value(bytes.take(4)))
            } else {
                None
            }
        },
        None => None,
    }
}

/// Extracts the principal id that a message carries.
pub fn find_pid(raw: &[u8]) -> (pid: Option<u32>)
    ensures
        match pid {
            Some(pid) => pid_in(raw@) == Some(pid as nat),
            None => pid_in(raw@) is None,
        },
{
    match find_service_token(raw) {
        Some(token) => match decode_b64(token) {
            Some(bytes) => if bytes.len() >= 4 {
                Some(read_be_u32(bytes.as_slice()))
            } else {
                None
            },
            None => None,
        },
        None => None,
    }
}

/// A principal id fits in 32 bits.
pub proof fn lemma_pid_bound(raw: Seq<u8>)
    ensures
        pid_in(raw) matches Some(pid) ==> pid < 0x1_0000_0000,
{
    if let Some(token) = service_token(raw) {
        let bytes = decoded(sextets(token));
        if bytes.len() >= 4 {
            lemma_be_value_bound(bytes.take(4));
            lemma_radix_powers();
        }
    }
}

/// A message whose token is the base64 text of a byte string carries the
/// principal id that the string begins with.
pub proof fn law_pid_of_token(raw: Seq<u8>, start: int, end: int, bytes: Seq<u8>)
    requires
        is_token(raw, start, end),
        raw.subrange(start, end) == encoded(bytes),
        bytes.len() >= 4,
    ensures
        pid_in(raw) == Some(be_value(bytes.take(4))),
{
    law_token_is_unique(raw, start, end);
    law_decode_inverts_encode(bytes);
}

/// The key under which a console expects its ticket: the digest of its principal
/// id, most significant byte first.
pub open spec fn token_key(pid: nat) -> Seq<u8> {
    tiger192(be_bytes(pid, 4))
}

/// Derives the key under which a console expects its ticket.
pub fn token_key_from_pid(pid: u32) -> (key: [u8; 24])
    ensures
        key@ == token_key(pid as nat),
{
    let bytes: Vec<u8> = be_u32(pid);
    proof {
        lemma_be_bytes_len(pid as nat, 4);
    }
    tiger_digest(bytes.as_slice())
}

} // verus!
