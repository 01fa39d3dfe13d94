//! The drive function: detaches every runner, runs it, and reattaches it.
//!
//! A packed schedule must mutate the very store it is kept in, and the store
//! is handed out under a single exclusive borrow; so each schedule is first
//! moved out of its slot (a default placeholder left behind), run against the
//! store, and then moved back.  The singleton resource runs first; the
//! per-entity runners are drained in bulk into a working list keyed by entity
//! identity, run, and re-merged by the same identity, so an entity that
//! vanished mid-drive simply loses its schedule.

use crate::host::HostWorld;
use crate::schedule::{elem_at, PackedSchedule};
use vstd::prelude::*;

verus! {

/// The schedule filed under an entity identity in a detached working list:
/// the first pair carrying the identity, if any.
pub open spec fn spec_lookup(pairs: Seq<(u64, PackedSchedule)>, id: u64) -> Option<PackedSchedule>
    decreases pairs.len(),
{
    if pairs.len() == 0 {
        Option::None
    } else if pairs.first().0 == id {
        Option::Some(pairs.first().1)
    } else {
        spec_lookup(pairs.drop_first(), id)
    }
}

/// No two pairs of the working list carry the same entity identity.
pub open spec fn ids_distinct(pairs: Seq<(u64, PackedSchedule)>) -> bool {
    forall|i: int, j: int| 0 <= i < j < pairs.len() ==> pairs[i].0 != pairs[j].0
}

/// Under distinct identities, each pair is found under its own identity.
proof fn lemma_lookup_at_index(pairs: Seq<(u64, PackedSchedule)>, i: int)
    requires
        ids_distinct(pairs),
        0 <= i < pairs.len(),
    ensures
        spec_lookup(pairs, pairs[i].0) == Option::Some(pairs[i].1),
    decreases pairs.len(),
{
    if i > 0 {
        assert(pairs.first().0 != pairs[i].0);
        assert(pairs.drop_first()[i - 1] == pairs[i]);
        assert(ids_distinct(pairs.drop_first())) by {
            assert forall|a: int, b: int|
                0 <= a < b < pairs.drop_first().len() implies pairs.drop_first()[a].0
                != pairs.drop_first()[b].0 by {
                assert(pairs.drop_first()[a] == pairs[a + 1]);
                assert(pairs.drop_first()[b] == pairs[b + 1]);
            }
        }
        lemma_lookup_at_index(pairs.drop_first(), i - 1);
    }
}

/// An identity carried by no pair is found under no pair.
proof fn lemma_lookup_none(pairs: Seq<(u64, PackedSchedule)>, id: u64)
    requires
        forall|k: int| 0 <= k < pairs.len() ==> (#[trigger] pairs[k]).0 != id,
    ensures
        spec_lookup(pairs, id) is None,
    decreases pairs.len(),
{
    if pairs.len() > 0 {
        assert(forall|k: int|
            0 <= k < pairs.drop_first().len() ==> (#[trigger] pairs.drop_first()[k]) == pairs[
                k + 1
            ]);
        lemma_lookup_none(pairs.drop_first(), id);
    }
}

/// Removing a pair of one identity leaves every other identity's lookup
/// unchanged.
proof fn lemma_lookup_remove_other(pairs: Seq<(u64, PackedSchedule)>, j: int, id: u64)
    requires
        0 <= j < pairs.len(),
        pairs[j].0 != id,
    ensures
        spec_lookup(pairs.remove(j), id) == spec_lookup(pairs, id),
    decreases pairs.len(),
{
    pairs.remove_ensures(j);
    if j == 0 {
        assert(pairs.remove(0) =~= pairs.drop_first());
    } else {
        assert(pairs.remove(j).first() == pairs.first());
        assert(pairs.remove(j).drop_first() =~= pairs.drop_first().remove(j - 1)) by {
            pairs.drop_first().remove_ensures(j - 1);
            assert(forall|k: int|
                0 <= k < pairs.drop_first().len() ==> (#[trigger] pairs.drop_first()[k]) == pairs[
                    k + 1
                ]);
        }
        if pairs.first().0 != id {
            assert(pairs.drop_first()[j - 1] == pairs[j]);
            lemma_lookup_remove_other(pairs.drop_first(), j - 1, id);
        }
    }
}

/// Removing a pair keeps the identities distinct and the schedules valid.
proof fn lemma_remove_keeps_invariants(pairs: Seq<(u64, PackedSchedule)>, j: int)
    requires
        0 <= j < pairs.len(),
        ids_distinct(pairs),
        forall|k: int| 0 <= k < pairs.len() ==> (#[trigger] pairs[k]).1.wf(),
    ensures
        ids_distinct(pairs.remove(j)),
        forall|k: int| 0 <= k < pairs.remove(j).len() ==> (#[trigger] pairs.remove(j)[k]).1.wf(),
{
    pairs.remove_ensures(j);
    let w = pairs.remove(j);
    assert forall|a: int, b: int| 0 <= a < b < w.len() implies w[a].0 != w[b].0 by {
        if a < j {
            assert(w[a] == pairs[a]);
        } else {
            assert(w[a] == pairs[a + 1]);
        }
        if b < j {
            assert(w[b] == pairs[b]);
        } else {
            assert(w[b] == pairs[b + 1]);
        }
    }
    assert forall|k: int| 0 <= k < w.len() implies (#[trigger] w[k]).1.wf() by {
        if k < j {
            assert(w[k] == pairs[k]);
        } else {
            assert(w[k] == pairs[k + 1]);
        }
    }
}

/// A schedule found under an identity is one of the list's schedules.
proof fn lemma_lookup_member_wf(pairs: Seq<(u64, PackedSchedule)>, id: u64)
    requires
        forall|k: int| 0 <= k < pairs.len() ==> (#[trigger] pairs[k]).1.wf(),
    ensures
        spec_lookup(pairs, id) matches Option::Some(s) ==> s.wf(),
    decreases pairs.len(),
{
    if pairs.len() > 0 {
        assert(pairs[0].1.wf());
        assert(forall|k: int|
            0 <= k < pairs.drop_first().len() ==> (#[trigger] pairs.drop_first()[k]) == pairs[
                k + 1
            ]);
        lemma_lookup_member_wf(pairs.drop_first(), id);
    }
}

/// The index of the first pair carrying the given identity, or `None`.
fn find_pair(pairs: &Vec<(u64, PackedSchedule)>, id: u64) -> (r: Option<usize>)
    ensures
        match r {
            Option::Some(j) => j < pairs@.len() && pairs@[j as int].0 == id && (forall|k: int|
                0 <= k < j ==> (#[trigger] pairs@[k]).0 != id),
            Option::None => forall|k: int| 0 <= k < pairs@.len() ==> (#[trigger] pairs@[k]).0 != id,
        },
{
    let mut j: usize = 0;
    while j < pairs.len()
        invariant
            j <= pairs@.len(),
            forall|k: int| 0 <= k < j ==> (#[trigger] pairs@[k]).0 != id,
        decreases pairs@.len() - j,
    {
        if pairs[j].0 == id {
            return Some(j);
        }
        j = j + 1;
    }
    None
}

/// Drains every per-entity runner's schedule into a working list, pairing it
/// with its entity identity and leaving the default placeholder behind.
pub fn detach_all(world: &mut HostWorld) -> (detached: Vec<(u64, PackedSchedule)>)
    requires
        old(world).wf(),
    ensures
        final(world).wf(),
        final(world).runner_resource == old(world).runner_resource,
        final(world).delta_nanos == old(world).delta_nanos,
        final(world).entities@.len() == old(world).entities@.len(),
        detached@.len() == old(world).entities@.len(),
        forall|i: int|
            0 <= i < detached@.len() ==> (#[trigger] detached@[i]).0 == old(world).entities@[i].entity && detached@[i].1 == old(world).entities@[i].runner.0,
        forall|i: int|
            0 <= i < final(world).entities@.len() ==> {
                let e = #[trigger] final(world).entities@[i];
                e.entity == old(world).entities@[i].entity && e.runner.0.policy
                    == crate::policy::ScheduleType::Always && e.runner.0.stage_view().len() == 0
                    && e.runner.0.executions == 0
            },
{
    let mut detached: Vec<(u64, PackedSchedule)> = Vec::new();
    let mut i: usize = 0;
    while i < world.entities.len()
        invariant
            old(world).wf(),
            i <= world.entities@.len(),
            world.entities@.len() == old(world).entities@.len(),
            world.runner_resource == old(world).runner_resource,
            world.delta_nanos == old(world).delta_nanos,
            detached@.len() == i,
            forall|k: int|
                0 <= k < i ==> (#[trigger] detached@[k]).0 == old(world).entities@[k].entity
                    && detached@[k].1 == old(world).entities@[k].runner.0,
            forall|k: int|
                0 <= k < i ==> {
                    let e = #[trigger] world.entities@[k];
                    e.entity == old(world).entities@[k].entity && e.runner.0.policy
                        == crate::policy::ScheduleType::Always && e.runner.0.stage_view().len()
                        == 0 && e.runner.0.executions == 0
                },
            forall|k: int|
                i <= k < world.entities@.len() ==> (#[trigger] world.entities@[k]) == old(world).entities@[k],
        decreases world.entities@.len() - i,
    {
        let id = world.entities[i].entity;
        let mut sched = PackedSchedule::default();
        let e = elem_at(&mut world.entities, i);
        core::mem::swap(&mut sched, &mut e.runner.0);
        detached.push((id, sched));
        i = i + 1;
    }
    detached
}

/// Runs every schedule of the working list once against the host store, in
/// place.  The store itself is only read.
pub fn run_detached(detached: &mut Vec<(u64, PackedSchedule)>, world: &mut HostWorld)
    requires
        forall|k: int|
            0 <= k < old(detached)@.len() ==> (#[trigger] old(detached)@[k]).1.wf(),
    ensures
        *final(world) == *old(world),
        final(detached)@.len() == old(detached)@.len(),
        forall|k: int|
            0 <= k < old(detached)@.len() ==> (#[trigger] final(detached)@[k]).0 == old(detached)@[k].0 && final(detached)@[k].1 == old(detached)@[k].1.spec_run(
                old(world).delta_nanos,
            ),
{
    let mut k: usize = 0;
    while k < detached.len()
        invariant
            *world == *old(world),
            k <= detached@.len(),
            detached@.len() == old(detached)@.len(),
            forall|m: int|
                0 <= m < old(detached)@.len() ==> (#[trigger] old(detached)@[m]).1.wf(),
            forall|m: int|
                0 <= m < k ==> (#[trigger] detached@[m]).0 == old(detached)@[m].0
                    && detached@[m].1 == old(detached)@[m].1.spec_run(old(world).delta_nanos),
            forall|m: int|
                k <= m < detached@.len() ==> (#[trigger] detached@[m]) == old(detached)@[m],
        decreases detached@.len() - k,
    {
        proof {
            assert(detached@[k as int] == old(detached)@[k as int]);
        }
        let p = elem_at(detached, k);
        p.1.run(world);
        k = k + 1;
    }
}

/// Re-merges a working list into the store by entity identity: each entity
/// still present whose identity is filed in the list gets its schedule back;
/// a schedule whose entity is gone is discarded, and an entity with no entry
/// keeps what it holds.  Either mismatch is tolerated, never an error.
pub fn reattach_all(world: &mut HostWorld, detached: Vec<(u64, PackedSchedule)>)
    requires
        old(world).wf(),
        ids_distinct(detached@),
        forall|k: int| 0 <= k < detached@.len() ==> (#[trigger] detached@[k]).1.wf(),
    ensures
        final(world).wf(),
        final(world).runner_resource == old(world).runner_resource,
        final(world).delta_nanos == old(world).delta_nanos,
        final(world).entities@.len() == old(world).entities@.len(),
        forall|i: int|
            0 <= i < old(world).entities@.len() ==> {
                let e0 = old(world).entities@[i];
                (#[trigger] final(world).entities@[i]).entity == e0.entity && final(world).entities@[i].runner.0 == (match spec_lookup(detached@, e0.entity) {
                    Option::Some(s) => s,
                    Option::None => e0.runner.0,
                })
            },
{
    let ghost d0 = detached@;
    let mut d = detached;
    let mut i: usize = 0;
    while i < world.entities.len()
        invariant
            old(world).wf(),
            i <= world.entities@.len(),
            world.entities@.len() == old(world).entities@.len(),
            world.runner_resource == old(world).runner_resource,
            world.delta_nanos == old(world).delta_nanos,
            ids_distinct(d@),
            forall|k: int| 0 <= k < d@.len() ==> (#[trigger] d@[k]).1.wf(),
            forall|j: int|
                0 <= j < i ==> {
                    let e0 = old(world).entities@[j];
                    (#[trigger] world.entities@[j]).entity == e0.entity
                        && world.entities@[j].runner.0 == (match spec_lookup(d0, e0.entity) {
                        Option::Some(s) => s,
                        Option::None => e0.runner.0,
                    })
                },
            forall|j: int|
                i <= j < world.entities@.len() ==> (#[trigger] world.entities@[j]) == old(world).entities@[j],
            forall|j: int|
                i <= j < world.entities@.len() ==> spec_lookup(
                    d@,
                    (#[trigger] world.entities@[j]).entity,
                ) == spec_lookup(d0, world.entities@[j].entity),
        decreases world.entities@.len() - i,
    {
        let id = world.entities[i].entity;
        let ghost dpre = d@;
        match find_pair(&d, id) {
            Some(j) => {
                let pair = d.remove(j);
                proof {
                    lemma_lookup_at_index(dpre, j as int);
                    lemma_remove_keeps_invariants(dpre, j as int);
                    assert forall|jj: int|
                        i + 1 <= jj < world.entities@.len() implies spec_lookup(
                        d@,
                        (#[trigger] world.entities@[jj]).entity,
                    ) == spec_lookup(d0, world.entities@[jj].entity) by {
                        assert(world.entities@[jj].entity == old(world).entities@[jj].entity);
                        assert(old(world).entities@[jj].entity != old(world).entities@[i as int].entity);
                        lemma_lookup_remove_other(dpre, j as int, world.entities@[jj].entity);
                    }
                }
                let e = elem_at(&mut world.entities, i);
                e.runner.0 = pair.1;
            },
            None => {
                proof {
                    lemma_lookup_none(d@, id);
                }
            },
        }
        i = i + 1;
    }
    proof {
        assert forall|a: int|
            0 <= a < world.entities@.len() implies (#[trigger] world.entities@[a]).runner.0.wf()
            && world.entities@[a].entity == old(world).entities@[a].entity by {
            lemma_lookup_member_wf(d0, old(world).entities@[a].entity);
        }
        assert forall|a: int, b: int|
            0 <= a < b < world.entities@.len() implies world.entities@[a].entity
            != world.entities@[b].entity by {
            assert(old(world).entities@[a].entity != old(world).entities@[b].entity);
        }
    }
}

/// The single function registered with the host, invoked once per host
/// drive.  The singleton runner resource, if present, runs first; then every
/// per-entity runner runs, each exactly once under its own policy, in bulk
/// through the detach/run/reattach protocol.  Each runner comes back
/// bit-identical but for what its own run did: the accumulator and the
/// completed-tick count.
pub fn schedule_runner_system(world: &mut HostWorld)
    requires
        old(world).wf(),
    ensures
        final(world).wf(),
        final(world).delta_nanos == old(world).delta_nanos,
        old(world).runner_resource is None ==> final(world).runner_resource is None,
        (old(world).runner_resource matches Option::Some(r) ==> (final(world).runner_resource
            matches Option::Some(r2) && r2.0 == r.0.spec_run(old(world).delta_nanos))),
        final(world).entities@.len() == old(world).entities@.len(),
        forall|i: int|
            0 <= i < old(world).entities@.len() ==> (#[trigger] final(world).entities@[i]).entity
                == old(world).entities@[i].entity && final(world).entities@[i].runner.0 == old(
                world,
            ).entities@[i].runner.0.spec_run(old(world).delta_nanos),
{
    let ghost w0 = *old(world);
    if world.runner_resource.is_some() {
        let mut sched = PackedSchedule::default();
        match &mut world.runner_resource {
            Some(r) => core::mem::swap(&mut sched, &mut r.0),
            None => {},
        }
        sched.run(world);
        match &mut world.runner_resource {
            Some(r) => r.0 = sched,
            None => {},
        }
    }
    let mut detached = detach_all(world);
    run_detached(&mut detached, world);
    let ghost dv = detached@;
    proof {
        assert forall|a: int, b: int| 0 <= a < b < dv.len() implies dv[a].0 != dv[b].0 by {
            assert(w0.entities@[a].entity != w0.entities@[b].entity);
        }
        assert forall|k: int| 0 <= k < dv.len() implies (#[trigger] dv[k]).1.wf() by {
            crate::schedule::lemma_spec_run_wf(w0.entities@[k].runner.0, w0.delta_nanos);
        }
    }
    reattach_all(world, detached);
    proof {
        assert forall|i: int|
            0 <= i < w0.entities@.len() implies (#[trigger] world.entities@[i]).entity
            == w0.entities@[i].entity && world.entities@[i].runner.0
            == w0.entities@[i].runner.0.spec_run(w0.delta_nanos) by {
            lemma_lookup_at_index(dv, i);
        }
    }
}

} // verus!
