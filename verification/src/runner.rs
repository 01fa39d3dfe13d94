//! The caller-facing runner handle and its builder methods.

use crate::policy::{ScheduleType, NANOS_PER_SECOND};
use crate::schedule::{
    elem_at, find_stage, lemma_distinct_insert, lemma_distinct_push,
    lemma_distinct_update_same_name, lemma_index_of_name_unique, lemma_view_insert,
    lemma_view_push, lemma_view_update, view_of, PackedSchedule, Stage,
};
use vstd::prelude::*;

verus! {

/// Name of the stage that runs first in every tick.
pub const FIRST: &'static str = "first";

/// Name of the stage that runs before the update stage.
pub const PRE_UPDATE: &'static str = "pre_update";

/// Name of the stage jobs are added to by default.
pub const UPDATE: &'static str = "update";

/// Name of the stage that runs after the update stage.
pub const POST_UPDATE: &'static str = "post_update";

/// Name of the stage that runs last in every tick.
pub const LAST: &'static str = "last";

/// The stage list every freshly built runner starts with: the five default
/// stages, in order, each empty.
pub open spec fn default_stage_view() -> Seq<(Seq<char>, Seq<u64>)> {
    seq![
        ("first"@, Seq::<u64>::empty()),
        ("pre_update"@, Seq::<u64>::empty()),
        ("update"@, Seq::<u64>::empty()),
        ("post_update"@, Seq::<u64>::empty()),
        ("last"@, Seq::<u64>::empty()),
    ]
}

/// The object a caller stores in the host: as the singleton resource, or as a
/// component on any number of entities.  It wraps the packed schedule and
/// offers a builder for stage and job registration, meant for wiring time
/// only: a handle is configured once and then handed to the host, never
/// mutated while a drive is in flight.
///
/// Builder misuse — a duplicate stage name, or a target stage that does not
/// exist — is a caller error, ruled out by each method's precondition;
/// [`ScheduleRunner::has_stage`] lets a caller test the condition first.
pub struct ScheduleRunner(pub PackedSchedule);

impl Default for ScheduleRunner {
    /// A runner with an `Always` policy and the five default stages.
    fn default() -> (r: Self)
        ensures
            r.0.policy == ScheduleType::Always,
            r.0.stage_view() == default_stage_view(),
            r.0.executions == 0,
            r.0.wf(),
    {
        let r = ScheduleRunner(PackedSchedule::default()).add_default_stages();
        proof {
            assert(r.0.stage_view() =~= default_stage_view());
        }
        r
    }
}

impl ScheduleRunner {
    /// A fixed-rate runner that runs every `interval_nanos` nanoseconds, with
    /// the five default stages.
    pub fn from_rate(interval_nanos: u64) -> (r: Self)
        requires
            interval_nanos > 0,
        ensures
            r.0.policy == ScheduleType::Fixed(interval_nanos, 0),
            r.0.stage_view() == default_stage_view(),
            r.0.executions == 0,
            r.0.wf(),
    {
        let mut p = PackedSchedule::default();
        p.policy = ScheduleType::fixed_rate(interval_nanos);
        let r = ScheduleRunner(p).add_default_stages();
        proof {
            assert(r.0.stage_view() =~= default_stage_view());
        }
        r
    }

    /// A fixed-rate runner that runs `ticks_per_second` times per second,
    /// with the five default stages.
    pub fn from_rate_inv(ticks_per_second: u64) -> (r: Self)
        requires
            1 <= ticks_per_second <= NANOS_PER_SECOND,
        ensures
            r.0.policy == ScheduleType::Fixed(NANOS_PER_SECOND / ticks_per_second, 0),
            r.0.stage_view() == default_stage_view(),
            r.0.executions == 0,
            r.0.wf(),
    {
        let mut p = PackedSchedule::default();
        p.policy = ScheduleType::fixed_rate_inverse(ticks_per_second);
        let r = ScheduleRunner(p).add_default_stages();
        proof {
            assert(r.0.stage_view() =~= default_stage_view());
        }
        r
    }

    /// Whether a stage of the given name exists.
    pub fn has_stage(&self, name: &str) -> (b: bool)
        ensures
            b == self.0.spec_has_stage(name@),
    {
        let n = String::from_str(name);
        match find_stage(&self.0.stages, &n) {
            Some(i) => {
                proof {
                    assert(0 <= i < self.0.stage_view().len() && self.0.stage_view()[
                        i as int
                    ].0 == name@);
                }
                true
            },
            None => false,
        }
    }

    /// Appends the five default stages, in order: first, pre-update, update,
    /// post-update, last.
    pub fn add_default_stages(self) -> (r: Self)
        requires
            self.0.wf(),
            !self.0.spec_has_stage("first"@),
            !self.0.spec_has_stage("pre_update"@),
            !self.0.spec_has_stage("update"@),
            !self.0.spec_has_stage("post_update"@),
            !self.0.spec_has_stage("last"@),
        ensures
            r.0.wf(),
            r.0.policy == self.0.policy,
            r.0.executions == self.0.executions,
            r.0.stage_view() == self.0.stage_view() + default_stage_view(),
    {
        proof {
            reveal_strlit("first");
            reveal_strlit("pre_update");
            reveal_strlit("update");
            reveal_strlit("post_update");
            reveal_strlit("last");
            assert("first"@.len() == 5);
            assert("pre_update"@.len() == 10);
            assert("update"@.len() == 6);
            assert("post_update"@.len() == 11);
            assert("last"@.len() == 4);
        }
        let r1 = self.add_stage("first");
        proof {
            assert(!r1.0.spec_has_stage("pre_update"@));
        }
        let r2 = r1.add_stage("pre_update");
        proof {
            assert(!r2.0.spec_has_stage("update"@));
        }
        let r3 = r2.add_stage("update");
        proof {
            assert(!r3.0.spec_has_stage("post_update"@));
        }
        let r4 = r3.add_stage("post_update");
        proof {
            assert(!r4.0.spec_has_stage("last"@));
        }
        let r = r4.add_stage("last");
        proof {
            assert(r.0.stage_view() =~= self.0.stage_view() + default_stage_view());
        }
        r
    }

    /// Appends an empty stage of the given name.  The name must be new.
    pub fn add_stage(self, stage_name: &str) -> (r: Self)
        requires
            self.0.wf(),
            !self.0.spec_has_stage(stage_name@),
        ensures
            r.0.wf(),
            r.0.policy == self.0.policy,
            r.0.executions == self.0.executions,
            r.0.stage_view() == self.0.stage_view().push((stage_name@, Seq::<u64>::empty())),
    {
        let mut s = self;
        let st = Stage { name: String::from_str(stage_name), systems: Vec::new() };
        proof {
            lemma_view_push(s.0.stages@, st);
            lemma_distinct_push(s.0.stage_view(), (stage_name@, Seq::<u64>::empty()));
        }
        s.0.stages.push(st);
        s
    }

    /// Inserts an empty stage of the given name immediately after the stage
    /// named `target`.  The target must exist and the name must be new.
    pub fn add_stage_after(self, target: &str, stage_name: &str) -> (r: Self)
        requires
            self.0.wf(),
            self.0.spec_has_stage(target@),
            !self.0.spec_has_stage(stage_name@),
        ensures
            r.0.wf(),
            r.0.policy == self.0.policy,
            r.0.executions == self.0.executions,
            r.0.stage_view() == self.0.stage_view().insert(
                self.0.spec_stage_index(target@) + 1,
                (stage_name@, Seq::<u64>::empty()),
            ),
    {
        let mut s = self;
        let t = String::from_str(target);
        let i = match find_stage(&s.0.stages, &t) {
            Some(i) => i,
            None => unreached(),
        };
        let st = Stage { name: String::from_str(stage_name), systems: Vec::new() };
        let len = s.0.stages.len();
        assert(i < len);
        proof {
            lemma_index_of_name_unique(s.0, i as int, target@);
            lemma_view_insert(s.0.stages@, i + 1, st);
            lemma_distinct_insert(
                s.0.stage_view(),
                i + 1,
                (stage_name@, Seq::<u64>::empty()),
            );
        }
        s.0.stages.insert(i + 1, st);
        s
    }

    /// Inserts an empty stage of the given name immediately before the stage
    /// named `target`.  The target must exist and the name must be new.
    pub fn add_stage_before(self, target: &str, stage_name: &str) -> (r: Self)
        requires
            self.0.wf(),
            self.0.spec_has_stage(target@),
            !self.0.spec_has_stage(stage_name@),
        ensures
            r.0.wf(),
            r.0.policy == self.0.policy,
            r.0.executions == self.0.executions,
            r.0.stage_view() == self.0.stage_view().insert(
                self.0.spec_stage_index(target@),
                (stage_name@, Seq::<u64>::empty()),
            ),
    {
        let mut s = self;
        let t = String::from_str(target);
        let i = match find_stage(&s.0.stages, &t) {
            Some(i) => i,
            None => unreached(),
        };
        let st = Stage { name: String::from_str(stage_name), systems: Vec::new() };
        proof {
            lemma_index_of_name_unique(s.0, i as int, target@);
            lemma_view_insert(s.0.stages@, i as int, st);
            lemma_distinct_insert(
                s.0.stage_view(),
                i as int,
                (stage_name@, Seq::<u64>::empty()),
            );
        }
        s.0.stages.insert(i, st);
        s
    }

    /// Appends a job to the default update stage.
    pub fn add_system(self, system: u64) -> (r: Self)
        requires
            self.0.wf(),
            self.0.spec_has_stage("update"@),
        ensures
            r.0.wf(),
            r.0.policy == self.0.policy,
            r.0.executions == self.0.executions,
            r.0.stage_view() == self.0.with_systems_appended("update"@, seq![system]),
    {
        self.add_system_to_stage("update", system)
    }

    /// Appends each job, in order, to the default update stage.
    pub fn add_systems(self, systems: Vec<u64>) -> (r: Self)
        requires
            self.0.wf(),
            self.0.spec_has_stage("update"@),
        ensures
            r.0.wf(),
            r.0.policy == self.0.policy,
            r.0.executions == self.0.executions,
            r.0.stage_view() == self.0.with_systems_appended("update"@, systems@),
    {
        self.add_systems_to_stage("update", systems)
    }

    /// Appends a job to the stage of the given name, which must exist.
    pub fn add_system_to_stage(self, stage_name: &str, system: u64) -> (r: Self)
        requires
            self.0.wf(),
            self.0.spec_has_stage(stage_name@),
        ensures
            r.0.wf(),
            r.0.policy == self.0.policy,
            r.0.executions == self.0.executions,
            r.0.stage_view() == self.0.with_systems_appended(stage_name@, seq![system]),
    {
        let mut s = self;
        let n = String::from_str(stage_name);
        let i = match find_stage(&s.0.stages, &n) {
            Some(i) => i,
            None => unreached(),
        };
        proof {
            lemma_index_of_name_unique(s.0, i as int, stage_name@);
        }
        let ghost stages0 = s.0.stages@;
        let st = elem_at(&mut s.0.stages, i);
        st.systems.push(system);
        proof {
            lemma_view_update(stages0, i as int, s.0.stages@[i as int]);
            lemma_distinct_update_same_name(
                view_of(stages0),
                i as int,
                (stage_name@, view_of(stages0)[i as int].1.push(system)),
            );
            assert(view_of(stages0)[i as int].1.push(system) =~= view_of(stages0)[i as int].1
                + seq![system]);
            assert(s.0.stage_view() =~= self.0.with_systems_appended(stage_name@, seq![system]));
        }
        s
    }

    /// Prepends a job to the stage of the given name, which must exist.
    pub fn add_system_to_stage_front(self, stage_name: &str, system: u64) -> (r: Self)
        requires
            self.0.wf(),
            self.0.spec_has_stage(stage_name@),
        ensures
            r.0.wf(),
            r.0.policy == self.0.policy,
            r.0.executions == self.0.executions,
            r.0.stage_view() == self.0.with_system_front(stage_name@, system),
    {
        let mut s = self;
        let n = String::from_str(stage_name);
        let i = match find_stage(&s.0.stages, &n) {
            Some(i) => i,
            None => unreached(),
        };
        proof {
            lemma_index_of_name_unique(s.0, i as int, stage_name@);
        }
        let ghost stages0 = s.0.stages@;
        let st = elem_at(&mut s.0.stages, i);
        st.systems.insert(0, system);
        proof {
            lemma_view_update(stages0, i as int, s.0.stages@[i as int]);
            lemma_distinct_update_same_name(
                view_of(stages0),
                i as int,
                (stage_name@, view_of(stages0)[i as int].1.insert(0, system)),
            );
            assert(seq![system] + view_of(stages0)[i as int].1 =~= view_of(stages0)[
                i as int
            ].1.insert(0, system));
            assert(s.0.stage_view() =~= self.0.with_system_front(stage_name@, system));
        }
        s
    }

    /// Appends each job, in order, to the stage of the given name, which must
    /// exist.
    pub fn add_systems_to_stage(self, stage_name: &str, systems: Vec<u64>) -> (r: Self)
        requires
            self.0.wf(),
            self.0.spec_has_stage(stage_name@),
        ensures
            r.0.wf(),
            r.0.policy == self.0.policy,
            r.0.executions == self.0.executions,
            r.0.stage_view() == self.0.with_systems_appended(stage_name@, systems@),
    {
        let ghost idx = self.0.spec_stage_index(stage_name@);
        let mut s = self;
        let mut k: usize = 0;
        while k < systems.len()
            invariant
                k <= systems@.len(),
                s.0.wf(),
                s.0.policy == self.0.policy,
                s.0.executions == self.0.executions,
                s.0.stage_view() == self.0.with_systems_appended(
                    stage_name@,
                    systems@.subrange(0, k as int),
                ),
                self.0.wf(),
                self.0.spec_has_stage(stage_name@),
                idx == self.0.spec_stage_index(stage_name@),
            decreases systems@.len() - k,
        {
            proof {
                assert(0 <= idx < s.0.stage_view().len() && s.0.stage_view()[idx].0
                    == stage_name@);
                lemma_index_of_name_unique(s.0, idx, stage_name@);
            }
            let before = s;
            s = before.add_system_to_stage(stage_name, systems[k]);
            proof {
                assert((self.0.stage_view()[idx].1 + systems@.subrange(0, k as int)) + seq![
                    systems@[k as int],
                ] =~= self.0.stage_view()[idx].1 + systems@.subrange(0, k as int + 1));
                assert(s.0.stage_view() =~= self.0.with_systems_appended(
                    stage_name@,
                    systems@.subrange(0, k as int + 1),
                ));
            }
            k = k + 1;
        }
        proof {
            assert(systems@.subrange(0, systems@.len() as int) =~= systems@);
        }
        s
    }
}

} // verus!
