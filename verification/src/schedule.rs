//! The packed schedule: a tick policy coupled with an ordered stage pipeline.

use crate::host::HostWorld;
use crate::policy::ScheduleType;
use vstd::prelude::*;

verus! {

/// One named stage of the pipeline: an ordered list of host job handles.  The
/// jobs themselves are opaque to this layer, which only stores and forwards
/// them; a handle stands for the host's job object.
pub struct Stage {
    pub name: String,
    pub systems: Vec<u64>,
}

/// Couples a tick policy with the ordered stage pipeline and records how many
/// ticks have been completed.  Executing the jobs of a tick is the host
/// executor's business; `executions` counts the ticks this schedule has paid
/// out to it.  A packed schedule is never duplicated: moving it in and out of
/// its slot is the only valid transfer.
pub struct PackedSchedule {
    pub policy: ScheduleType,
    pub stages: Vec<Stage>,
    pub executions: u64,
}

/// The abstract content of a stage list: each stage as its name and its jobs.
pub open spec fn view_of(stages: Seq<Stage>) -> Seq<(Seq<char>, Seq<u64>)> {
    stages.map(|i: int, s: Stage| (s.name@, s.systems@))
}

/// No two stages share a name.
pub open spec fn names_distinct(v: Seq<(Seq<char>, Seq<u64>)>) -> bool {
    forall|i: int, j: int| 0 <= i < j < v.len() ==> v[i].0 != v[j].0
}

/// The tick count after paying out `t` more ticks, capped at `u64::MAX`.
pub open spec fn count_after(executions: u64, t: int) -> u64 {
    if executions + t <= u64::MAX {
        (executions + t) as u64
    } else {
        u64::MAX
    }
}

impl PackedSchedule {
    /// The stages as abstract content: name and jobs of each, in order.
    pub open spec fn stage_view(self) -> Seq<(Seq<char>, Seq<u64>)> {
        view_of(self.stages@)
    }

    /// Whether a stage of the given name exists.
    pub open spec fn spec_has_stage(self, name: Seq<char>) -> bool {
        exists|i: int| 0 <= i < self.stage_view().len() && self.stage_view()[i].0 == name
    }

    /// The index of the stage with the given name (unique under `wf`).
    pub open spec fn spec_stage_index(self, name: Seq<char>) -> int {
        choose|i: int| 0 <= i < self.stage_view().len() && self.stage_view()[i].0 == name
    }

    /// A valid policy and pairwise-distinct stage names.
    pub open spec fn wf(self) -> bool {
        self.policy.wf() && names_distinct(self.stage_view())
    }

    /// The stage list with `more` jobs appended to the stage of the given
    /// name.
    pub open spec fn with_systems_appended(self, name: Seq<char>, more: Seq<u64>) -> Seq<
        (Seq<char>, Seq<u64>),
    > {
        let idx = self.spec_stage_index(name);
        self.stage_view().update(
            idx,
            (self.stage_view()[idx].0, self.stage_view()[idx].1 + more),
        )
    }

    /// The stage list with one job prepended to the stage of the given name.
    pub open spec fn with_system_front(self, name: Seq<char>, system: u64) -> Seq<
        (Seq<char>, Seq<u64>),
    > {
        let idx = self.spec_stage_index(name);
        self.stage_view().update(
            idx,
            (self.stage_view()[idx].0, seq![system] + self.stage_view()[idx].1),
        )
    }

    /// One drive of the schedule: the policy advances, the stages are
    /// unchanged, and the completed-tick count grows by the ticks owed,
    /// capped at `u64::MAX`.
    pub open spec fn spec_run(self, delta: Option<u64>) -> PackedSchedule {
        PackedSchedule {
            policy: self.policy.spec_after(delta),
            stages: self.stages,
            executions: count_after(self.executions, self.policy.spec_ticks(delta)),
        }
    }

    /// Consults the tick policy against the host's elapsed time and pays out
    /// the ticks owed this drive.  The host store is only read (for the
    /// elapsed time); what the jobs of each tick do to the host is the
    /// executor's business and leaves this layer's state untouched.
    pub fn run(&mut self, world: &mut HostWorld) -> (ticks: u64)
        requires
            old(self).wf(),
        ensures
            final(self).wf(),
            *final(self) == old(self).spec_run(old(world).delta_nanos),
            ticks == old(self).policy.spec_ticks(old(world).delta_nanos),
            *final(world) == *old(world),
    {
        let delta = world.delta_nanos;
        let t = self.policy.drive(delta);
        self.executions = if self.executions <= u64::MAX - t {
            self.executions + t
        } else {
            u64::MAX
        };
        t
    }
}

impl Default for PackedSchedule {
    /// The detached-slot placeholder: an `Always` policy, no stages, no ticks
    /// completed.
    fn default() -> (r: Self)
        ensures
            r.policy == ScheduleType::Always,
            r.stage_view() == Seq::<(Seq<char>, Seq<u64>)>::empty(),
            r.executions == 0,
            r.wf(),
    {
        let r = PackedSchedule { policy: ScheduleType::Always, stages: Vec::new(), executions: 0 };
        proof {
            assert(r.stage_view() =~= Seq::<(Seq<char>, Seq<u64>)>::empty());
        }
        r
    }
}

/// The index of the first stage with the given name, or `None`.
pub(crate) fn find_stage(stages: &Vec<Stage>, name: &String) -> (r: Option<usize>)
    ensures
        match r {
            Option::Some(i) => i < stages@.len() && view_of(stages@)[i as int].0 == name@
                && (forall|j: int| 0 <= j < i ==> view_of(stages@)[j].0 != name@),
            Option::None => forall|j: int|
                0 <= j < stages@.len() ==> view_of(stages@)[j].0 != name@,
        },
{
    let mut i: usize = 0;
    while i < stages.len()
        invariant
            i <= stages@.len(),
            forall|j: int| 0 <= j < i ==> view_of(stages@)[j].0 != name@,
        decreases stages@.len() - i,
    {
        if stages[i].name == *name {
            return Some(i);
        }
        i = i + 1;
    }
    None
}

/// A mutable borrow of one element of a vector; the vector afterwards holds
/// whatever the caller leaves behind the borrow.
pub(crate) fn elem_at<T>(v: &mut Vec<T>, i: usize) -> (element: &mut T)
    requires
        i < old(v)@.len(),
    ensures
        *element == old(v)@[i as int],
        final(v)@ == old(v)@.update(i as int, *final(element)),
{
    &mut v[i]
}

/// One drive of a valid schedule leaves it valid.
pub proof fn lemma_spec_run_wf(s: PackedSchedule, delta: Option<u64>)
    requires
        s.wf(),
    ensures
        s.spec_run(delta).wf(),
{
    crate::policy::lemma_spec_after_wf(s.policy, delta);
}

/// A drive moves only the accumulator and the completed-tick count: the stage
/// configuration and the policy's kind and interval come back bit-identical.
pub proof fn lemma_run_preserves_configuration(s: PackedSchedule, delta: Option<u64>)
    ensures
        s.spec_run(delta).stage_view() == s.stage_view(),
        s.policy is Always ==> s.spec_run(delta).policy == s.policy,
        s.policy matches ScheduleType::Fixed(interval, _) ==> (s.spec_run(delta).policy matches
            ScheduleType::Fixed(interval2, _) && interval2 == interval),
        delta is None ==> s.spec_run(delta).policy == s.policy,
{
}

/// A runner under the `Always` policy completes exactly one tick per drive,
/// whatever the elapsed time and even when the host's time source is absent.
pub proof fn lemma_always_gains_one_tick(s: PackedSchedule, delta: Option<u64>)
    requires
        s.policy == ScheduleType::Always,
        s.executions < u64::MAX,
    ensures
        s.spec_run(delta).executions == s.executions + 1,
{
}

/// Appending a stage appends its abstract content.
pub(crate) proof fn lemma_view_push(stages: Seq<Stage>, st: Stage)
    ensures
        view_of(stages.push(st)) == view_of(stages).push((st.name@, st.systems@)),
{
    assert(view_of(stages.push(st)) =~= view_of(stages).push((st.name@, st.systems@)));
}

/// Inserting a stage inserts its abstract content at the same index.
pub(crate) proof fn lemma_view_insert(stages: Seq<Stage>, k: int, st: Stage)
    requires
        0 <= k <= stages.len(),
    ensures
        view_of(stages.insert(k, st)) == view_of(stages).insert(k, (st.name@, st.systems@)),
{
    stages.insert_ensures(k, st);
    view_of(stages).insert_ensures(k, (st.name@, st.systems@));
    assert(view_of(stages.insert(k, st)) =~= view_of(stages).insert(
        k,
        (st.name@, st.systems@),
    ));
}

/// Replacing a stage replaces its abstract content at the same index.
pub(crate) proof fn lemma_view_update(stages: Seq<Stage>, k: int, st: Stage)
    requires
        0 <= k < stages.len(),
    ensures
        view_of(stages.update(k, st)) == view_of(stages).update(k, (st.name@, st.systems@)),
{
    assert(view_of(stages.update(k, st)) =~= view_of(stages).update(
        k,
        (st.name@, st.systems@),
    ));
}

/// A fresh name appended to a distinct-name list keeps the names distinct.
pub(crate) proof fn lemma_distinct_push(v: Seq<(Seq<char>, Seq<u64>)>, p: (Seq<char>, Seq<u64>))
    requires
        names_distinct(v),
        forall|i: int| 0 <= i < v.len() ==> (#[trigger] v[i]).0 != p.0,
    ensures
        names_distinct(v.push(p)),
{
    let w = v.push(p);
    assert forall|i: int, j: int| 0 <= i < j < w.len() implies w[i].0 != w[j].0 by {
        if j < v.len() {
            assert(w[i] == v[i] && w[j] == v[j]);
        } else {
            assert(w[i] == v[i] && w[j] == p);
        }
    }
}

/// A fresh name inserted into a distinct-name list keeps the names distinct.
pub(crate) proof fn lemma_distinct_insert(
    v: Seq<(Seq<char>, Seq<u64>)>,
    k: int,
    p: (Seq<char>, Seq<u64>),
)
    requires
        0 <= k <= v.len(),
        names_distinct(v),
        forall|i: int| 0 <= i < v.len() ==> (#[trigger] v[i]).0 != p.0,
    ensures
        names_distinct(v.insert(k, p)),
{
    v.insert_ensures(k, p);
    let w = v.insert(k, p);
    assert forall|i: int, j: int| 0 <= i < j < w.len() implies w[i].0 != w[j].0 by {
        if i < k {
            assert(w[i] == v[i]);
        } else if i == k {
            assert(w[i] == p);
        } else {
            assert(w[i] == v[i - 1]);
        }
        if j < k {
            assert(w[j] == v[j]);
        } else if j == k {
            assert(w[j] == p);
        } else {
            assert(w[j] == v[j - 1]);
        }
    }
}

/// Replacing a stage's jobs while keeping its name keeps the names distinct.
pub(crate) proof fn lemma_distinct_update_same_name(
    v: Seq<(Seq<char>, Seq<u64>)>,
    k: int,
    p: (Seq<char>, Seq<u64>),
)
    requires
        0 <= k < v.len(),
        names_distinct(v),
        p.0 == v[k].0,
    ensures
        names_distinct(v.update(k, p)),
{
    let w = v.update(k, p);
    assert forall|i: int, j: int| 0 <= i < j < w.len() implies w[i].0 != w[j].0 by {
        assert(w[i].0 == v[i].0 && w[j].0 == v[j].0);
    }
}

/// A stage's name determines its index when the names are distinct.
pub(crate) proof fn lemma_index_of_name_unique(sched: PackedSchedule, i: int, name: Seq<char>)
    requires
        names_distinct(sched.stage_view()),
        0 <= i < sched.stage_view().len(),
        sched.stage_view()[i].0 == name,
    ensures
        sched.spec_has_stage(name),
        sched.spec_stage_index(name) == i,
{
    assert(sched.spec_has_stage(name));
    let ci = sched.spec_stage_index(name);
    assert(0 <= ci < sched.stage_view().len() && sched.stage_view()[ci].0 == name);
    if i < ci {
        assert(sched.stage_view()[i].0 != sched.stage_view()[ci].0);
    } else if ci < i {
        assert(sched.stage_view()[ci].0 != sched.stage_view()[i].0);
    }
}

} // verus!
