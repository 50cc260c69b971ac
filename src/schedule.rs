use vstd::prelude::*;
use crate::models::Folder;

verus! {

/// The profiles of `s` whose interval is `k`, in their order in `s`.
pub open spec fn members(s: Seq<Folder>, k: i32) -> Seq<Folder>
    decreases s.len(),
{
    if s.len() == 0 {
        Seq::empty()
    } else {
        let rest = members(s.drop_last(), k);
        if s.last().interval == k {
            rest.push(s.last())
        } else {
            rest
        }
    }
}

/// The distinct intervals of `s`, in the order of their first appearance.
pub open spec fn intervals(s: Seq<Folder>) -> Seq<i32>
    decreases s.len(),
{
    if s.len() == 0 {
        Seq::empty()
    } else {
        let rest = intervals(s.drop_last());
        if rest.contains(s.last().interval) {
            rest
        } else {
            rest.push(s.last().interval)
        }
    }
}

/// The grouping of `s` by interval: one pair of interval and members for each
/// distinct interval, in the order of first appearance.
pub open spec fn grouping(s: Seq<Folder>) -> Seq<(i32, Seq<Folder>)> {
    intervals(s).map_values(|k: i32| (k, members(s, k)))
}

/// The profiles that share one interval, copied together on each tick.
#[derive(Debug, Clone, PartialEq)]
pub struct IntervalGroup {
    pub interval: i32,
    pub profiles: Vec<Folder>,
}

impl View for IntervalGroup {
    type V = (i32, Seq<Folder>);

    open spec fn view(&self) -> (i32, Seq<Folder>) {
        (self.interval, self.profiles@)
    }
}

proof fn lemma_push_contains<A>(s: Seq<A>, x: A, y: A)
    ensures
        s.push(x).contains(y) <==> (s.contains(y) || x == y),
{
    if s.contains(y) {
        let j = choose|j: int| 0 <= j < s.len() && s[j] == y;
        assert(s.push(x)[j] == y);
    }
    if x == y {
        assert(s.push(x)[s.len() as int] == y);
    }
    if s.push(x).contains(y) {
        let j = choose|j: int| 0 <= j < s.push(x).len() && s.push(x)[j] == y;
        if j < s.len() {
            assert(s[j] == y);
        }
    }
}

proof fn lemma_members_absent(s: Seq<Folder>, k: i32)
    requires
        !intervals(s).contains(k),
    ensures
        members(s, k) == Seq::<Folder>::empty(),
    decreases s.len(),
{
    if s.len() > 0 {
        let rest = intervals(s.drop_last());
        lemma_push_contains(rest, s.last().interval, k);
        lemma_members_absent(s.drop_last(), k);
    }
}

proof fn lemma_intervals_present(s: Seq<Folder>, i: int)
    requires
        0 <= i < s.len(),
    ensures
        intervals(s).contains(s[i].interval),
    decreases s.len(),
{
    let rest = intervals(s.drop_last());
    lemma_push_contains(rest, s.last().interval, s[i].interval);
    if i < s.len() - 1 {
        lemma_intervals_present(s.drop_last(), i);
        assert(s.drop_last()[i] == s[i]);
    }
}

proof fn lemma_intervals_distinct(s: Seq<Folder>)
    ensures
        intervals(s).no_duplicates(),
    decreases s.len(),
{
    if s.len() > 0 {
        lemma_intervals_distinct(s.drop_last());
        let rest = intervals(s.drop_last());
        if !rest.contains(s.last().interval) {
            assert forall|a: int, b: int|
                0 <= a < b < rest.push(s.last().interval).len() implies rest.push(
                s.last().interval,
            )[a] != rest.push(s.last().interval)[b] by {
                if b == rest.len() {
                    assert(rest[a] == rest.push(s.last().interval)[a]);
                }
            }
        }
    }
}

proof fn lemma_members_share_interval(s: Seq<Folder>, k: i32)
    ensures
        forall|f: Folder| #[trigger] members(s, k).contains(f) ==> f.interval == k,
    decreases s.len(),
{
    if s.len() > 0 {
        lemma_members_share_interval(s.drop_last(), k);
        let rest = members(s.drop_last(), k);
        if s.last().interval == k {
            assert forall|f: Folder| #[trigger] rest.push(s.last()).contains(f) implies f.interval
                == k by {
                lemma_push_contains(rest, s.last(), f);
            }
        }
    }
}

proof fn lemma_members_contain(s: Seq<Folder>, i: int)
    requires
        0 <= i < s.len(),
    ensures
        members(s, s[i].interval).contains(s[i]),
    decreases s.len(),
{
    if i < s.len() - 1 {
        lemma_members_contain(s.drop_last(), i);
        let k = s[i].interval;
        let rest = members(s.drop_last(), k);
        let j = choose|j: int| 0 <= j < rest.len() && rest[j] == s[i];
        if s.last().interval == k {
            assert(rest.push(s.last())[j] == s[i]);
        }
    } else {
        let rest = members(s.drop_last(), s[i].interval);
        assert(rest.push(s.last())[rest.len() as int] == s[i]);
    }
}

/// The number of profiles over all groups of `gs`.
pub open spec fn group_sizes(gs: Seq<(i32, Seq<Folder>)>) -> nat
    decreases gs.len(),
{
    if gs.len() == 0 {
        0
    } else {
        group_sizes(gs.drop_last()) + gs.last().1.len()
    }
}

/// The number of profiles of `s` whose interval is one of `ks`.
spec fn total(ks: Seq<i32>, s: Seq<Folder>) -> nat
    decreases ks.len(),
{
    if ks.len() == 0 {
        0
    } else {
        total(ks.drop_last(), s) + members(s, ks.last()).len()
    }
}

proof fn lemma_group_sizes_total(ks: Seq<i32>, s: Seq<Folder>)
    ensures
        group_sizes(ks.map_values(|k: i32| (k, members(s, k)))) == total(ks, s),
    decreases ks.len(),
{
    if ks.len() > 0 {
        lemma_group_sizes_total(ks.drop_last(), s);
        assert(ks.map_values(|k: i32| (k, members(s, k))).drop_last() =~= ks.drop_last().map_values(
            |k: i32| (k, members(s, k)),
        ));
    }
}

proof fn lemma_total_step(ks: Seq<i32>, s: Seq<Folder>)
    requires
        s.len() > 0,
        ks.no_duplicates(),
    ensures
        total(ks, s) == total(ks, s.drop_last()) + (if ks.contains(s.last().interval) {
            1nat
        } else {
            0nat
        }),
    decreases ks.len(),
{
    if ks.len() > 0 {
        let front = ks.drop_last();
        assert(front.no_duplicates());
        lemma_total_step(front, s);
        assert(front.push(ks.last()) == ks);
        lemma_push_contains(front, ks.last(), s.last().interval);
        if ks.last() == s.last().interval && front.contains(s.last().interval) {
            let j = choose|j: int| 0 <= j < front.len() && front[j] == s.last().interval;
            assert(ks[j] == ks[ks.len() - 1]);
        }
    }
}

proof fn lemma_total_all(s: Seq<Folder>)
    ensures
        total(intervals(s), s) == s.len(),
    decreases s.len(),
{
    if s.len() > 0 {
        let p = s.drop_last();
        let k = s.last().interval;
        lemma_total_all(p);
        lemma_intervals_distinct(p);
        lemma_total_step(intervals(p), s);
        if !intervals(p).contains(k) {
            lemma_members_absent(p, k);
            assert(intervals(s).drop_last() == intervals(p));
        }
    }
}

proof fn lemma_intervals_occur(s: Seq<Folder>, k: i32)
    requires
        intervals(s).contains(k),
    ensures
        exists|i: int| 0 <= i < s.len() && s[i].interval == k,
    decreases s.len(),
{
    let p = s.drop_last();
    lemma_push_contains(intervals(p), s.last().interval, k);
    if s.last().interval != k {
        lemma_intervals_occur(p, k);
        let i = choose|i: int| 0 <= i < p.len() && p[i].interval == k;
        assert(s[i] == p[i]);
    } else {
        assert(s[s.len() - 1].interval == k);
    }
}

/// Grouping by interval is a partition that depends on the intervals alone:
/// the groups' intervals are distinct, each is the interval of some profile
/// and each profile's interval has its group, no group is empty, every profile belongs to the group of its
/// own interval, a group holds no profile of another interval, and the groups
/// together hold as many profiles as there are.
pub proof fn lemma_grouping_partition(s: Seq<Folder>)
    ensures
        forall|a: int, b: int|
            0 <= a < b < grouping(s).len() ==> grouping(s)[a].0 != grouping(s)[b].0,
        forall|g: int|
            #![trigger grouping(s)[g]]
            0 <= g < grouping(s).len() ==> exists|i: int|
                0 <= i < s.len() && s[i].interval == grouping(s)[g].0,
        forall|g: int| 0 <= g < grouping(s).len() ==> #[trigger] grouping(s)[g].1.len() > 0,
        forall|i: int|
            #![trigger s[i]]
            0 <= i < s.len() ==> exists|g: int|
                0 <= g < grouping(s).len() && grouping(s)[g].0 == s[i].interval
                    && grouping(s)[g].1.contains(s[i]),
        forall|g: int, f: Folder|
            0 <= g < grouping(s).len() && #[trigger] grouping(s)[g].1.contains(f)
                ==> f.interval == grouping(s)[g].0,
        group_sizes(grouping(s)) == s.len(),
{
    lemma_intervals_distinct(s);
    assert forall|i: int| #![trigger s[i]] 0 <= i < s.len() implies exists|g: int|
        0 <= g < grouping(s).len() && grouping(s)[g].0 == s[i].interval
            && grouping(s)[g].1.contains(s[i]) by {
        lemma_intervals_present(s, i);
        lemma_members_contain(s, i);
        let g = intervals(s).index_of(s[i].interval);
        assert(grouping(s)[g].0 == s[i].interval);
    }
    assert forall|g: int| #![trigger grouping(s)[g]] 0 <= g < grouping(s).len() implies exists|
        i: int,
    | 0 <= i < s.len() && s[i].interval == grouping(s)[g].0 by {
        assert(intervals(s).contains(intervals(s)[g]));
        lemma_intervals_occur(s, intervals(s)[g]);
    }
    assert forall|g: int| 0 <= g < grouping(s).len() implies #[trigger] grouping(s)[g].1.len()
        > 0 by {
        assert(intervals(s).contains(intervals(s)[g]));
        lemma_members_present(s, intervals(s)[g]);
    }
    assert forall|g: int, f: Folder|
        0 <= g < grouping(s).len() && #[trigger] grouping(s)[g].1.contains(f) implies f.interval
        == grouping(s)[g].0 by {
        lemma_members_share_interval(s, intervals(s)[g]);
    }
    lemma_group_sizes_total(intervals(s), s);
    lemma_total_all(s);
}

proof fn lemma_members_of_members(s: Seq<Folder>, k: i32)
    ensures
        members(members(s, k), k) == members(s, k),
        members(s, k).len() > 0 ==> intervals(members(s, k)) == seq![k],
    decreases s.len(),
{
    if s.len() > 0 {
        lemma_members_of_members(s.drop_last(), k);
        let rest = members(s.drop_last(), k);
        if s.last().interval == k {
            assert(rest.push(s.last()).drop_last() == rest);
            if rest.len() > 0 {
                assert(intervals(rest) == seq![k]);
                assert(intervals(rest).contains(k)) by {
                    assert(intervals(rest)[0] == k);
                }
            } else {
                assert(intervals(rest) == Seq::<i32>::empty());
            }
        }
    }
}

/// Grouping is stable under regrouping: the profiles of one group, grouped
/// again, form exactly that group once more.
pub proof fn lemma_regrouping_a_group(s: Seq<Folder>, g: int)
    requires
        0 <= g < grouping(s).len(),
    ensures
        grouping(grouping(s)[g].1) == seq![grouping(s)[g]],
{
    let k = intervals(s)[g];
    lemma_intervals_distinct(s);
    assert(intervals(s).contains(k));
    lemma_members_present(s, k);
    lemma_members_of_members(s, k);
    assert(grouping(members(s, k)) =~= seq![(k, members(s, k))]);
}

proof fn lemma_members_present(s: Seq<Folder>, k: i32)
    requires
        intervals(s).contains(k),
    ensures
        members(s, k).len() > 0,
    decreases s.len(),
{
    let rest = intervals(s.drop_last());
    lemma_push_contains(rest, s.last().interval, k);
    if s.last().interval != k {
        lemma_members_present(s.drop_last(), k);
    }
}

/// Splits `profiles` into one group per distinct interval, in the order in
/// which each interval first appears; each group keeps its profiles in their
/// order of loading.
pub fn group_by_interval(profiles: &Vec<Folder>) -> (r: Vec<IntervalGroup>)
    ensures
        r@.map_values(|g: IntervalGroup| g@) == grouping(profiles@),
{
    let mut groups: Vec<IntervalGroup> = Vec::new();
    let n = profiles.len();
    let mut i: usize = 0;
    while i < n
        invariant
            n == profiles@.len(),
            i <= n,
            groups@.len() == intervals(profiles@.take(i as int)).len(),
            forall|j: int|
                0 <= j < groups@.len() ==> #[trigger] groups@[j].interval == intervals(
                    profiles@.take(i as int),
                )[j] && groups@[j].profiles@ == members(
                    profiles@.take(i as int),
                    groups@[j].interval,
                ),
        decreases n - i,
    {
        let ghost prev = profiles@.take(i as int);
        let ghost next = profiles@.take(i + 1);
        assert(next.drop_last() == prev);
        assert(next.last() == profiles@[i as int]);
        let f = profiles[i].duplicate();
        let k = f.interval;
        let mut j: usize = 0;
        let mut found = false;
        while j < groups.len() && !found
            invariant
                j <= groups@.len(),
                !found ==> forall|t: int| 0 <= t < j ==> #[trigger] groups@[t].interval != k,
                found ==> j < groups@.len() && groups@[j as int].interval == k,
            decreases groups@.len() - j + (if found { 0int } else { 1int }),
        {
            if groups[j].interval == k {
                found = true;
            } else {
                j = j + 1;
            }
        }
        let ghost old_groups = groups@;
        if found {
            assert(intervals(prev)[j as int] == k);
            assert(intervals(prev).contains(k));
            proof {
                lemma_push_contains(intervals(prev), k, k);
            }
            assert(intervals(next) == intervals(prev));
            let mut g = groups.remove(j);
            g.profiles.push(f);
            groups.insert(j, g);
            assert(groups@ =~= old_groups.update(j as int, groups@[j as int]));
            assert forall|t: int| 0 <= t < groups@.len() implies #[trigger] groups@[t].interval
                == intervals(next)[t] && groups@[t].profiles@ == members(
                next,
                groups@[t].interval,
            ) by {
                if t != j {
                    assert(groups@[t] == old_groups[t]);
                    lemma_intervals_distinct(prev);
                    assert(groups@[t].interval != k);
                    assert(members(next, groups@[t].interval) == members(prev, groups@[t].interval));
                } else {
                    assert(groups@[t].profiles@ == old_groups[t].profiles@.push(f));
                    assert(members(next, k) == members(prev, k).push(f));
                }
            }
        } else {
            assert forall|t: int| 0 <= t < intervals(prev).len() implies intervals(prev)[t]
                != k by {
                assert(groups@[t].interval == intervals(prev)[t]);
            }
            assert(!intervals(prev).contains(k));
            proof {
                lemma_push_contains(intervals(prev), k, k);
            }
            proof {
                lemma_members_absent(prev, k);
            }
            let mut list: Vec<Folder> = Vec::new();
            list.push(f);
            groups.push(IntervalGroup { interval: k, profiles: list });
            assert(intervals(next) == intervals(prev).push(k));
            assert forall|t: int| 0 <= t < groups@.len() implies #[trigger] groups@[t].interval
                == intervals(next)[t] && groups@[t].profiles@ == members(
                next,
                groups@[t].interval,
            ) by {
                if t < old_groups.len() {
                    assert(groups@[t] == old_groups[t]);
                } else {
                    assert(groups@[t].profiles@ == Seq::<Folder>::empty().push(
                        profiles@[i as int],
                    ));
                }
            }
        }
        i = i + 1;
    }
    assert(profiles@.take(n as int) == profiles@);
    assert(groups@.map_values(|g: IntervalGroup| g@) == grouping(profiles@));
    groups
}

/// What a group's worker does next.
#[derive(Debug, Clone, Copy, PartialEq, Eq)]
pub enum WorkerAction {
    /// Copy the profile at this position of the group.
    Copy(usize),
    /// Sleep this many seconds, then start the next tick.
    Sleep(u64),
}

/// The decisions of the worker that serves one interval group.
///
/// On each tick the worker copies the group's profiles in order. The first
/// failed copy ends the tick: the remaining profiles wait for the next tick.
/// After the last attempt of a tick the worker sleeps for the group's interval.
#[derive(Debug, Clone, Copy, PartialEq, Eq)]
pub struct GroupWorker {
    /// The group's interval, in seconds.
    pub interval: i32,
    /// The number of profiles in the group.
    pub size: usize,
    /// The position of the next profile to copy in this tick; `size` once the
    /// tick is over.
    pub position: usize,
}

/// The seconds a worker sleeps between ticks: the interval as the unsigned
/// number of the same bits.
pub open spec fn sleep_seconds(interval: i32) -> u64 {
    interval as u64
}

impl GroupWorker {
    /// The action of a worker in state `self`.
    pub open spec fn action(self) -> WorkerAction {
        if self.position < self.size {
            WorkerAction::Copy(self.position)
        } else {
            WorkerAction::Sleep(sleep_seconds(self.interval))
        }
    }

    /// The state after the outcome of the current copy is known.
    pub open spec fn recorded(self, succeeded: bool) -> GroupWorker {
        if self.position >= self.size {
            self
        } else if succeeded {
            GroupWorker { position: (self.position + 1) as usize, ..self }
        } else {
            GroupWorker { position: self.size, ..self }
        }
    }

    /// The state at the start of a new tick.
    pub open spec fn woken(self) -> GroupWorker {
        GroupWorker { position: 0, ..self }
    }

    /// A worker for a group of `size` profiles copied every `interval`
    /// seconds, at the start of its first tick.
    pub fn new(interval: i32, size: usize) -> (r: GroupWorker)
        ensures
            r == (GroupWorker { interval, size, position: 0 }),
    {
        GroupWorker { interval, size, position: 0 }
    }

    /// A worker for `group`, at the start of its first tick.
    pub fn for_group(group: &IntervalGroup) -> (r: GroupWorker)
        ensures
            r == (GroupWorker {
                interval: group.interval,
                size: group.profiles@.len() as usize,
                position: 0,
            }),
    {
        GroupWorker { interval: group.interval, size: group.profiles.len(), position: 0 }
    }

    /// What to do next: copy the profile at the current position, or sleep
    /// once the tick is over.
    pub fn next_action(&self) -> (r: WorkerAction)
        ensures
            r == self.action(),
    {
        if self.position < self.size {
            WorkerAction::Copy(self.position)
        } else {
            WorkerAction::Sleep(self.interval as u64)
        }
    }

    /// Takes in the outcome of the copy that `next_action` asked for. A success
    /// moves on to the next profile; a failure ends the tick. Outside a copy
    /// nothing changes.
    pub fn record(&mut self, succeeded: bool)
        ensures
            *final(self) == old(self).recorded(succeeded),
    {
        if self.position < self.size {
            if succeeded {
                self.position = self.position + 1;
            } else {
                self.position = self.size;
            }
        }
    }

    /// Starts a new tick, after the sleep: the first profile comes next.
    pub fn wake(&mut self)
        ensures
            *final(self) == old(self).woken(),
    {
        self.position = 0;
    }
}

/// A failed copy ends the tick: the worker sleeps for the group's interval
/// without attempting the later profiles, and the next tick starts again with
/// the first profile, so those profiles are attempted then.
pub proof fn lemma_failure_ends_tick(w: GroupWorker)
    requires
        w.position < w.size,
    ensures
        w.recorded(false).action() == WorkerAction::Sleep(sleep_seconds(w.interval)),
        w.recorded(false).woken().action() == WorkerAction::Copy(0),
        w.recorded(false).woken().size == w.size,
{
}

/// The state after `k` successful copies from `w`.
pub open spec fn successes(w: GroupWorker, k: nat) -> GroupWorker
    decreases k,
{
    if k == 0 {
        w
    } else {
        successes(w, (k - 1) as nat).recorded(true)
    }
}

/// A tick attempts the profiles in order: after `k` successes from the start
/// of a tick the worker asks for the profile at position `k`.
pub proof fn lemma_successes_advance_in_order(w: GroupWorker, k: nat)
    requires
        w.position == 0,
        k < w.size,
    ensures
        successes(w, k).action() == WorkerAction::Copy(k as usize),
        successes(w, k).position == k,
        successes(w, k).size == w.size,
        successes(w, k).interval == w.interval,
    decreases k,
{
    if k > 0 {
        lemma_successes_advance_in_order(w, (k - 1) as nat);
    }
}

} // verus!
