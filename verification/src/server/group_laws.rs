//! How groups are counted, group by group.

use super::groups::{count_of, disconnected, joined, occurrences, parted, GroupsView};
use crate::sequences::lemma_filter_push;
use vstd::prelude::*;

verus! {

/// How many times a group stands in a list.
pub open spec fn times(groups: Seq<u32>, g: u32) -> nat {
    groups.filter(|x: u32| x == g).len()
}

proof fn lemma_times(groups: Seq<u32>, g: u32)
    ensures
        occurrences(groups, g) == times(groups, g),
    decreases groups.len(),
{
    reveal(Seq::filter);
    if groups.len() > 0 {
        let init = groups.drop_last();
        lemma_times(init, g);
        assert(groups =~= init.push(groups.last()));
        lemma_filter_push(init, groups.last(), |x: u32| x == g);
    }
}

/// The count of a group; one that was never counted has none.
pub open spec fn counted(v: GroupsView, g: u32) -> int {
    if v.counts.contains_key(g) {
        v.counts[g] as int
    } else {
        0
    }
}

/// What a client is told of a group is its count.
pub proof fn law_told_counts(v: GroupsView, g: u32)
    ensures
        count_of(v.counts, g) == counted(v, g),
{
}

/// A session that sends a list is in just those groups from then on, and no other
/// session moves. A group that it was not in, and is in now, has one more, however
/// often the list names it; one that it was in, and is not in now, has one less, if
/// it had any; every other has as many as before.
pub proof fn law_sent_list_counts(v: GroupsView, session: u64, groups: Seq<u32>, other: u64, g: u32)
    ensures
        ({
            let next = v.with_groups(session, groups);
            let was = v.members.contains_key(session) && v.members[session].contains(g);
            let now = groups.contains(g);
            &&& next.members.contains_key(session)
            &&& next.members[session] == groups
            &&& other != session ==> next.members.contains_key(other) == v.members.contains_key(
                other,
            ) && next.members[other] == v.members[other]
            &&& !was && now ==> counted(next, g) == counted(v, g) + 1
            &&& was && !now && counted(v, g) > 0 ==> counted(next, g) == counted(v, g) - 1
            &&& was && !now && counted(v, g) == 0 ==> counted(next, g) == 0
            &&& was == now ==> counted(next, g) == counted(v, g)
        }),
{
    let before = v.groups_of(session);
    let next = v.with_groups(session, groups);
    let mid = joined(v.counts, before, groups);
    assert(before.contains(g) == (v.members.contains_key(session) && v.members[session].contains(
        g,
    )));
    assert(mid.contains_key(g) == (v.counts.contains_key(g) || groups.contains(g)
        && !before.contains(g)));
    assert(next.counts.contains_key(g) == mid.contains_key(g));
    assert(next.counts == parted(mid, before, groups));
}

/// A session that disconnects is in no groups any more, and no other session moves.
/// A group has one less for every time that it stood in the list of the session, as
/// far as it had any. A session that never sent a list changes nothing.
pub proof fn law_disconnect_counts(v: GroupsView, session: u64, other: u64, g: u32)
    ensures
        ({
            let next = v.without_session(session);
            &&& !v.members.contains_key(session) ==> next == v
            &&& !next.members.contains_key(session)
            &&& other != session ==> next.members.contains_key(other) == v.members.contains_key(
                other,
            ) && next.members[other] == v.members[other]
            &&& v.members.contains_key(session) && counted(v, g) >= times(v.members[session], g)
                ==> counted(next, g) == counted(v, g) - times(v.members[session], g)
            &&& v.members.contains_key(session) && counted(v, g) < times(v.members[session], g)
                ==> counted(next, g) == 0
        }),
{
    if v.members.contains_key(session) {
        let next = v.without_session(session);
        lemma_times(v.members[session], g);
        assert(next.counts == disconnected(v.counts, v.members[session]));
        assert(next.counts.contains_key(g) == v.counts.contains_key(g));
    }
}

} // verus!
