//! Which groups the connected clients are in, and how many clients each group has.

use crate::session::BdSession;
use std::collections::HashMap;
use vstd::prelude::*;
use vstd::set_lib::lemma_len_subset;
use vstd::slice::slice_to_vec;

verus! {

broadcast use vstd::std_specs::hash::group_hash_axioms;

/// Counts the clients of every group.
pub struct DwGroupService {
    aggregated_group_counts: HashMap<u32, u64>,
    session_groups: HashMap<u64, Vec<u32>>,
}

/// The state of the service: a count per group, and the groups that each session
/// was last put in.
#[verifier::ext_equal]
pub ghost struct GroupsView {
    pub counts: Map<u32, nat>,
    pub members: Map<u64, Seq<u32>>,
}

impl View for DwGroupService {
    type V = GroupsView;

    closed spec fn view(&self) -> GroupsView {
        GroupsView {
            counts: self.aggregated_group_counts@.map_values(|n: u64| n as nat),
            members: self.session_groups@.map_values(|groups: Vec<u32>| groups@),
        }
    }
}

/// The count of a group; zero if nobody ever was in it.
pub open spec fn count_of(counts: Map<u32, nat>, group: u32) -> nat {
    if counts.contains_key(group) {
        counts[group]
    } else {
        0
    }
}

/// The counts after a session that was in some groups enters others: one more
/// where it was not before.
pub open spec fn joined(counts: Map<u32, nat>, before: Seq<u32>, after: Seq<u32>) -> Map<u32, nat> {
    Map::new(
        |g: u32| counts.contains_key(g) || after.contains(g) && !before.contains(g),
        |g: u32|
            if after.contains(g) && !before.contains(g) {
                count_of(counts, g) + 1
            } else {
                counts[g]
            },
    )
}

/// The counts after a session leaves the groups that it is in no more: one less,
/// but never less than none.
pub open spec fn parted(counts: Map<u32, nat>, before: Seq<u32>, after: Seq<u32>) -> Map<u32, nat> {
    Map::new(
        |g: u32| counts.contains_key(g),
        |g: u32|
            if before.contains(g) && !after.contains(g) && counts[g] > 0 {
                (counts[g] - 1) as nat
            } else {
                counts[g]
            },
    )
}

/// How often a group stands in a list.
pub open spec fn occurrences(groups: Seq<u32>, group: u32) -> nat
    decreases groups.len(),
{
    if groups.len() == 0 {
        0
    } else {
        occurrences(groups.drop_last(), group) + if groups.last() == group {
            1nat
        } else {
            0nat
        }
    }
}

/// The counts after a session with these groups disconnects: one less for every
/// time that a group stands in the list, but never less than none.
pub open spec fn disconnected(counts: Map<u32, nat>, groups: Seq<u32>) -> Map<u32, nat> {
    Map::new(
        |g: u32| counts.contains_key(g),
        |g: u32|
            if counts[g] > occurrences(groups, g) {
                (counts[g] - occurrences(groups, g)) as nat
            } else {
                0
            },
    )
}

impl GroupsView {
    /// The groups that a session was last put in.
    pub open spec fn groups_of(self, session: u64) -> Seq<u32> {
        if self.members.contains_key(session) {
            self.members[session]
        } else {
            Seq::empty()
        }
    }

    /// The sessions that are in a group.
    pub open spec fn holders(self, group: u32) -> Set<u64> {
        self.members.dom().filter(|s: u64| self.members[s].contains(group))
    }

    /// No group counts more sessions than are in it.
    pub open spec fn wf(self) -> bool {
        &&& self.members.dom().finite()
        &&& forall|g: u32| #[trigger] count_of(self.counts, g) <= self.holders(g).len()
    }

    /// Every group counts just the sessions that are in it.
    pub open spec fn exact(self) -> bool {
        &&& self.members.dom().finite()
        &&& forall|g: u32| #[trigger] count_of(self.counts, g) == self.holders(g).len()
    }

    /// The state after a session is put in groups.
    pub open spec fn with_groups(self, session: u64, groups: Seq<u32>) -> GroupsView {
        let before = self.groups_of(session);
        GroupsView {
            counts: parted(joined(self.counts, before, groups), before, groups),
            members: self.members.insert(session, groups),
        }
    }

    /// The state after a session disconnects.
    pub open spec fn without_session(self, session: u64) -> GroupsView {
        if self.members.contains_key(session) {
            GroupsView {
                counts: disconnected(self.counts, self.members[session]),
                members: self.members.remove(session),
            }
        } else {
            self
        }
    }
}

/// Whether a group stands among the first `n` of a list.
fn stands_in(groups: &[u32], n: usize, group: u32) -> (r: bool)
    requires
        n <= groups@.len(),
    ensures
        r == groups@.take(n as int).contains(group),
{
    let mut i: usize = 0;
    while i < n
        invariant
            i <= n <= groups.len(),
            forall|j: int| 0 <= j < i ==> groups@[j] != group,
        decreases n - i,
    {
        if groups[i] == group {
            proof {
                assert(groups@.take(n as int)[i as int] == group);
            }
            return true;
        }
        i = i + 1;
    }
    false
}

impl DwGroupService {
    /// A service that nobody is connected to.
    pub fn new() -> (service: DwGroupService)
        ensures
            service@.wf(),
            service@.exact(),
            service@.counts == Map::<u32, nat>::empty(),
            service@.members == Map::<u64, Seq<u32>>::empty(),
    {
        let service = DwGroupService {
            aggregated_group_counts: HashMap::new(),
            session_groups: HashMap::new(),
        };
        proof {
            assert(service@.members =~= Map::<u64, Seq<u32>>::empty());
            assert(service@.counts =~= Map::<u32, nat>::empty());
            assert forall|g: u32| service@.holders(g).len() == 0 by {
                assert(service@.holders(g) =~= Set::<u64>::empty());
            }
        }
        service
    }

    /// The count of a group.
    fn count(&self, group: u32) -> (n: u64)
        ensures
            n == count_of(self@.counts, group),
    {
        match self.aggregated_group_counts.get(&group) {
            Some(n) => *n,
            None => 0,
        }
    }

    /// Sets the count of a group.
    fn set_count(&mut self, group: u32, n: u64)
        ensures
            final(self)@.counts == old(self)@.counts.insert(group, n as nat),
            final(self)@.members == old(self)@.members,
    {
        self.aggregated_group_counts.insert(group, n);
        proof {
            assert(self@.counts =~= old(self)@.counts.insert(group, n as nat));
        }
    }

    /// How many sessions each of the groups has.
    pub fn get_group_counts(&self, session: &BdSession, groups: &[u32]) -> (counts: Vec<u64>)
        ensures
            counts@.len() == groups@.len(),
            forall|i: int|
                0 <= i < groups@.len() ==> #[trigger] counts@[i] == count_of(
                    self@.counts,
                    groups@[i],
                ),
    {
        let mut counts: Vec<u64> = Vec::new();
        let mut i: usize = 0;
        while i < groups.len()
            invariant
                i <= groups.len(),
                counts@.len() == i,
                forall|j: int|
                    0 <= j < i ==> #[trigger] counts@[j] == count_of(self@.counts, groups@[j]),
            decreases groups.len() - i,
        {
            counts.push(self.count(groups[i]));
            i = i + 1;
        }
        counts
    }

    /// Adds one to the groups of `after` that are not among those of `before`.
    fn join_groups(&mut self, before: &[u32], after: &[u32])
        requires
            forall|g: u32|
                after@.contains(g) && !before@.contains(g) ==> #[trigger] count_of(
                    old(self)@.counts,
                    g,
                ) < u64::MAX,
        ensures
            final(self)@.counts == joined(old(self)@.counts, before@, after@),
            final(self)@.members == old(self)@.members,
    {
        let ghost start = self@.counts;
        let mut i: usize = 0;
        proof {
            assert(joined(start, before@, after@.take(0)) =~= start);
        }
        while i < after.len()
            invariant
                i <= after.len(),
                self@.counts == joined(start, before@, after@.take(i as int)),
                self@.members == old(self)@.members,
                forall|g: u32|
                    after@.contains(g) && !before@.contains(g) ==> #[trigger] count_of(start, g)
                        < u64::MAX,
            decreases after.len() - i,
        {
            let group: u32 = after[i];
            let ghost seen = after@.take(i as int);
            let ghost more = after@.take(i + 1);
            proof {
                assert(more =~= seen.push(group));
                assert(forall|g: u32| more.contains(g) <==> seen.contains(g) || g == group) by {
                    assert(more[i as int] == group);
                    assert(forall|k: int| 0 <= k < i ==> #[trigger] more[k] == seen[k]);
                }
                assert(after@.contains(group));
                assert(before@.take(before@.len() as int) =~= before@);
            }
            if !stands_in(before, before.len(), group) && !stands_in(after, i, group) {
                let n: u64 = self.count(group);
                proof {
                    assert(n == count_of(start, group));
                }
                self.set_count(group, n + 1);
            }
            proof {
                assert(self@.counts =~= joined(start, before@, more));
            }
            i = i + 1;
        }
        proof {
            assert(after@.take(after@.len() as int) =~= after@);
        }
    }

    /// Takes one from the groups of `before` that are not among those of `after`.
    fn part_groups(&mut self, before: &[u32], after: &[u32])
        ensures
            final(self)@.counts == parted(old(self)@.counts, before@, after@),
            final(self)@.members == old(self)@.members,
    {
        let ghost start = self@.counts;
        let mut i: usize = 0;
        proof {
            assert(parted(start, before@.take(0), after@) =~= start);
        }
        while i < before.len()
            invariant
                i <= before.len(),
                self@.counts == parted(start, before@.take(i as int), after@),
                self@.members == old(self)@.members,
            decreases before.len() - i,
        {
            let group: u32 = before[i];
            let ghost seen = before@.take(i as int);
            let ghost more = before@.take(i + 1);
            proof {
                assert(more =~= seen.push(group));
                assert(forall|g: u32| more.contains(g) <==> seen.contains(g) || g == group) by {
                    assert(more[i as int] == group);
                    assert(forall|k: int| 0 <= k < i ==> #[trigger] more[k] == seen[k]);
                }
                assert(after@.take(after@.len() as int) =~= after@);
            }
            if !stands_in(after, after.len(), group) && !stands_in(before, i, group) {
                let n: u64 = self.count(group);
                if n > 0 {
                    self.set_count(group, n - 1);
                }
            }
            proof {
                assert(self@.counts =~= parted(start, more, after@));
            }
            i = i + 1;
        }
        proof {
            assert(before@.take(before@.len() as int) =~= before@);
        }
    }

    /// Puts a session in groups, in place of those that it was in.
    pub fn set_groups(&mut self, session: &BdSession, groups: &[u32])
        requires
            old(self)@.wf(),
        ensures
            final(self)@.wf(),
            final(self)@ == old(self)@.with_groups(session.id, groups@),
            old(self)@.exact() ==> final(self)@.exact(),
    {
        let ghost start = self@;
        let before: Vec<u32> = match self.session_groups.remove(&session.id) {
            Some(before) => before,
            None => Vec::new(),
        };
        self.session_groups.insert(session.id, slice_to_vec(groups));
        let sessions: usize = self.session_groups.len();
        proof {
            assert(before@ =~= start.groups_of(session.id));
            assert(self@.members =~= start.members.insert(session.id, groups@));
            assert(self.session_groups@.dom() =~= self@.members.dom());
            assert(self@.counts == start.counts);
            assert forall|g: u32|
                groups@.contains(g) && !before@.contains(g) implies #[trigger] count_of(
                start.counts,
                g,
            ) < u64::MAX by {
                let held = start.holders(g);
                let all = self@.members.dom();
                assert(held.insert(session.id).subset_of(all));
                lemma_len_subset(held.insert(session.id), all);
                lemma_len_subset(held, all);
                assert(!held.contains(session.id));
            }
        }
        self.join_groups(before.as_slice(), groups);
        self.part_groups(before.as_slice(), groups);
        proof {
            lemma_with_groups(start, session.id, groups@);
            if start.exact() {
                law_set_groups_keeps_counts_exact(start, session.id, groups@);
            }
        }
    }

    /// Takes a session that disconnects out of all its groups.
    pub fn remove_all_groups_for_session(&mut self, session_id: u64)
        requires
            old(self)@.wf(),
        ensures
            final(self)@.wf(),
            final(self)@ == old(self)@.without_session(session_id),
            old(self)@.exact() && old(self)@.groups_of(session_id).no_duplicates()
                ==> final(self)@.exact(),
    {
        let ghost start = self@;
        match self.session_groups.remove(&session_id) {
            Some(groups) => {
                let ghost counts = self@.counts;
                proof {
                    assert(self@.members =~= start.members.remove(session_id));
                    assert(groups@ == start.members[session_id]);
                    assert(disconnected(counts, groups@.take(0)) =~= counts);
                }
                let mut i: usize = 0;
                while i < groups.len()
                    invariant
                        i <= groups@.len(),
                        self@.counts == disconnected(counts, groups@.take(i as int)),
                        self@.members == start.members.remove(session_id),
                    decreases groups@.len() - i,
                {
                    let group: u32 = groups[i];
                    let ghost seen = groups@.take(i as int);
                    let ghost more = groups@.take(i + 1);
                    proof {
                        assert(more.drop_last() =~= seen);
                        assert(more.last() == group);
                    }
                    let n: u64 = self.count(group);
                    if n > 0 {
                        self.set_count(group, n - 1);
                    }
                    proof {
                        assert(self@.counts =~= disconnected(counts, more));
                    }
                    i = i + 1;
                }
                proof {
                    assert(groups@.take(groups@.len() as int) =~= groups@);
                    lemma_without_session(start, session_id);
                    if start.exact() && start.groups_of(session_id).no_duplicates() {
                        law_disconnect_keeps_counts_exact(start, session_id);
                    }
                }
            },
            None => {
                proof {
                    assert(self@.members =~= start.members);
                }
            },
        }
    }
}

/// How putting a session in groups changes who is in a group.
proof fn lemma_holders_with(v: GroupsView, session: u64, groups: Seq<u32>, g: u32)
    requires
        v.members.dom().finite(),
    ensures
        ({
            let held = v.holders(g);
            let now = v.with_groups(session, groups).holders(g);
            &&& held.finite() && now.finite()
            &&& held.contains(session) == v.groups_of(session).contains(g)
            &&& groups.contains(g) ==> now == held.insert(session)
            &&& !groups.contains(g) ==> now == held.remove(session)
        }),
{
    let held = v.holders(g);
    let next = v.with_groups(session, groups);
    lemma_len_subset(held, v.members.dom());
    lemma_len_subset(next.holders(g), next.members.dom());
    if groups.contains(g) {
        assert(next.holders(g) =~= held.insert(session));
    } else {
        assert(next.holders(g) =~= held.remove(session));
    }
}

proof fn lemma_with_groups(v: GroupsView, session: u64, groups: Seq<u32>)
    requires
        v.wf(),
    ensures
        v.with_groups(session, groups).wf(),
{
    let next = v.with_groups(session, groups);
    let before = v.groups_of(session);
    assert forall|g: u32| #[trigger] count_of(next.counts, g) <= next.holders(g).len() by {
        lemma_holders_with(v, session, groups, g);
        assert(count_of(v.counts, g) <= v.holders(g).len());
        assert(joined(v.counts, before, groups).contains_key(g) || count_of(next.counts, g) == 0);
    }
}

proof fn lemma_occurs(groups: Seq<u32>, g: u32)
    ensures
        occurrences(groups, g) > 0 <==> groups.contains(g),
        groups.no_duplicates() ==> occurrences(groups, g) <= 1,
    decreases groups.len(),
{
    if groups.len() > 0 {
        let init = groups.drop_last();
        lemma_occurs(init, g);
        assert(groups =~= init.push(groups.last()));
        if groups.contains(g) {
            let k = choose|k: int| 0 <= k < groups.len() && groups[k] == g;
            if k < init.len() {
                assert(init[k] == g);
            }
        }
        if init.contains(g) {
            let k = choose|k: int| 0 <= k < init.len() && init[k] == g;
            assert(groups[k] == g);
        }
        if groups.last() == g {
            assert(groups[groups.len() - 1] == g);
        }
    }
}

proof fn lemma_holders_without(v: GroupsView, session: u64, g: u32)
    requires
        v.members.dom().finite(),
        v.members.contains_key(session),
    ensures
        v.holders(g).finite(),
        v.without_session(session).holders(g) == v.holders(g).remove(session),
        v.holders(g).contains(session) == v.members[session].contains(g),
{
    lemma_len_subset(v.holders(g), v.members.dom());
    assert(v.without_session(session).holders(g) =~= v.holders(g).remove(session));
}

proof fn lemma_without_session(v: GroupsView, session: u64)
    requires
        v.wf(),
        v.members.contains_key(session),
    ensures
        v.without_session(session).wf(),
{
    let next = v.without_session(session);
    assert forall|g: u32| #[trigger] count_of(next.counts, g) <= next.holders(g).len() by {
        lemma_holders_without(v, session, g);
        lemma_occurs(v.members[session], g);
        assert(count_of(v.counts, g) <= v.holders(g).len());
    }
}

/// Putting a session in groups keeps every count right.
pub proof fn law_set_groups_keeps_counts_exact(v: GroupsView, session: u64, groups: Seq<u32>)
    requires
        v.exact(),
    ensures
        v.with_groups(session, groups).exact(),
{
    let next = v.with_groups(session, groups);
    let before = v.groups_of(session);
    assert forall|g: u32| #[trigger] count_of(next.counts, g) == next.holders(g).len() by {
        lemma_holders_with(v, session, groups, g);
        assert(count_of(v.counts, g) == v.holders(g).len());
        lemma_len_subset(v.holders(g), v.members.dom());
        if groups.contains(g) && !before.contains(g) {
            assert(joined(v.counts, before, groups).contains_key(g));
            assert(next.counts.contains_key(g));
        } else if before.contains(g) && !groups.contains(g) {
            assert(v.holders(g).contains(session));
            assert(v.counts.contains_key(g));
            assert(joined(v.counts, before, groups).contains_key(g));
        } else {
            assert(next.holders(g) =~= v.holders(g));
        }
    }
}

/// A session that disconnects keeps every count right, if no group stands in its
/// list twice.
pub proof fn law_disconnect_keeps_counts_exact(v: GroupsView, session: u64)
    requires
        v.exact(),
        v.groups_of(session).no_duplicates(),
    ensures
        v.without_session(session).exact(),
{
    if v.members.contains_key(session) {
        let next = v.without_session(session);
        assert forall|g: u32| #[trigger] count_of(next.counts, g) == next.holders(g).len() by {
            lemma_holders_without(v, session, g);
            lemma_occurs(v.members[session], g);
            assert(count_of(v.counts, g) == v.holders(g).len());
            if v.members[session].contains(g) {
                assert(v.holders(g).contains(session));
                assert(v.counts.contains_key(g));
            } else {
                assert(next.holders(g) =~= v.holders(g));
            }
        }
    }
}

/// Sending the same groups again changes nothing.
pub proof fn law_resending_changes_nothing(v: GroupsView, session: u64, groups: Seq<u32>)
    requires
        v.members.contains_key(session),
        v.members[session] == groups,
    ensures
        v.with_groups(session, groups) == v,
{
    assert(v.with_groups(session, groups).members =~= v.members);
    assert(v.with_groups(session, groups).counts =~= v.counts);
}

/// A session does not touch the groups that it neither was in nor is put in.
pub proof fn law_other_groups_keep_their_count(
    v: GroupsView,
    session: u64,
    groups: Seq<u32>,
    g: u32,
)
    requires
        groups.contains(g) == v.groups_of(session).contains(g),
    ensures
        count_of(v.with_groups(session, groups).counts, g) == count_of(v.counts, g),
{
}

/// The state of a fresh service after sessions were put in groups, one call after
/// the other.
pub open spec fn after_calls(calls: Seq<(u64, Seq<u32>)>) -> GroupsView
    decreases calls.len(),
{
    if calls.len() == 0 {
        GroupsView { counts: Map::empty(), members: Map::empty() }
    } else {
        after_calls(calls.drop_last()).with_groups(calls.last().0, calls.last().1)
    }
}

/// The list that a session sent last, if it sent any.
pub open spec fn latest_list(calls: Seq<(u64, Seq<u32>)>, session: u64) -> Option<Seq<u32>>
    decreases calls.len(),
{
    if calls.len() == 0 {
        None
    } else if calls.last().0 == session {
        Some(calls.last().1)
    } else {
        latest_list(calls.drop_last(), session)
    }
}

/// Whatever lists sessions send, and in whatever order, a group counts just the
/// sessions whose latest list names it, each of them once.
pub proof fn law_counts_are_those_of_the_latest_lists(calls: Seq<(u64, Seq<u32>)>, group: u32)
    ensures
        after_calls(calls).exact(),
        forall|session: u64|
            #![trigger after_calls(calls).holders(group).contains(session)]
            after_calls(calls).holders(group).contains(session) <==> (latest_list(
                calls,
                session,
            ) matches Some(groups) && groups.contains(group)),
        count_of(after_calls(calls).counts, group) == after_calls(calls).holders(group).len(),
{
    lemma_after_calls(calls);
    let v = after_calls(calls);
    assert forall|session: u64|
        #![trigger v.holders(group).contains(session)]
        v.holders(group).contains(session) <==> (latest_list(calls, session) matches Some(groups)
            && groups.contains(group)) by {
        assert(v.members.contains_key(session) == latest_list(calls, session) is Some);
    }
}

proof fn lemma_after_calls(calls: Seq<(u64, Seq<u32>)>)
    ensures
        after_calls(calls).exact(),
        forall|session: u64|
            #![trigger after_calls(calls).members.contains_key(session)]
            match latest_list(calls, session) {
                Some(groups) => after_calls(calls).members.contains_key(session) && after_calls(
                    calls,
                ).members[session] == groups,
                None => !after_calls(calls).members.contains_key(session),
            },
    decreases calls.len(),
{
    let v = after_calls(calls);
    if calls.len() == 0 {
        assert forall|g: u32| #[trigger] count_of(v.counts, g) == v.holders(g).len() by {
            assert(v.holders(g) =~= Set::<u64>::empty());
        }
    } else {
        let init = calls.drop_last();
        lemma_after_calls(init);
        law_set_groups_keeps_counts_exact(after_calls(init), calls.last().0, calls.last().1);
        assert forall|session: u64|
            #![trigger v.members.contains_key(session)]
            match latest_list(calls, session) {
                Some(groups) => v.members.contains_key(session) && v.members[session] == groups,
                None => !v.members.contains_key(session),
            } by {
            assert(after_calls(init).members.contains_key(session) == latest_list(
                init,
                session,
            ) is Some);
        }
    }
}

} // verus!
