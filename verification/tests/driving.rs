use bevy_contrib_schedules::driver::{detach_all, reattach_all, run_detached, schedule_runner_system};
use bevy_contrib_schedules::host::{EntityEntry, HostWorld};
use bevy_contrib_schedules::policy::ScheduleType;
use bevy_contrib_schedules::runner::ScheduleRunner;
use bevy_contrib_schedules::schedule::PackedSchedule;

fn world_with(entities: Vec<(u64, ScheduleRunner)>, delta: Option<u64>) -> HostWorld {
    let mut w = HostWorld::new();
    w.delta_nanos = delta;
    for (entity, runner) in entities {
        w.entities.push(EntityEntry { entity, runner });
    }
    w
}

#[test]
fn empty_world_is_driven_without_error() {
    let mut w = HostWorld::new();
    schedule_runner_system(&mut w);
    assert!(w.runner_resource.is_none());
    assert!(w.entities.is_empty());
}

#[test]
fn singleton_runner_comes_back_bit_identical_but_for_its_run() {
    let mut w = HostWorld::new();
    w.delta_nanos = Some(300_000_000);
    w.runner_resource = Some(ScheduleRunner::from_rate(500_000_000).add_system(11));
    schedule_runner_system(&mut w);
    let r = w.runner_resource.as_ref().unwrap();
    // Stage configuration is untouched...
    let names: Vec<&str> = r.0.stages.iter().map(|s| s.name.as_str()).collect();
    assert_eq!(names, vec!["first", "pre_update", "update", "post_update", "last"]);
    assert_eq!(r.0.stages[2].systems, vec![11]);
    // ...and only the run's own mutation shows: the accumulator moved.
    assert_eq!(r.0.policy, ScheduleType::Fixed(500_000_000, 300_000_000));
    assert_eq!(r.0.executions, 0);
    schedule_runner_system(&mut w);
    let r = w.runner_resource.as_ref().unwrap();
    assert_eq!(r.0.policy, ScheduleType::Fixed(500_000_000, 100_000_000));
    assert_eq!(r.0.executions, 1);
}

#[test]
fn singleton_runs_even_without_a_time_source() {
    let mut w = HostWorld::new();
    w.runner_resource = Some(ScheduleRunner::default());
    schedule_runner_system(&mut w);
    assert_eq!(w.runner_resource.as_ref().unwrap().0.executions, 1);
}

#[test]
fn every_per_entity_runner_runs_exactly_once() {
    let mut w = world_with(
        vec![
            (10, ScheduleRunner::default()),
            (52, ScheduleRunner::default()),
            (3, ScheduleRunner::default()),
            (41, ScheduleRunner::from_rate(100)),
        ],
        Some(250),
    );
    schedule_runner_system(&mut w);
    assert_eq!(w.entities.len(), 4);
    let ids: Vec<u64> = w.entities.iter().map(|e| e.entity).collect();
    assert_eq!(ids, vec![10, 52, 3, 41]);
    // Each Always runner completed exactly one tick this drive.
    for e in &w.entities[..3] {
        assert_eq!(e.runner.0.executions, 1);
    }
    // The fixed-rate one completed its policy-determined count.
    assert_eq!(w.entities[3].runner.0.executions, 2);
    assert_eq!(w.entities[3].runner.0.policy, ScheduleType::Fixed(100, 50));
}

#[test]
fn per_entity_runners_are_independent() {
    let mut w = world_with(
        vec![(1, ScheduleRunner::from_rate(100)), (2, ScheduleRunner::from_rate(300))],
        Some(300),
    );
    schedule_runner_system(&mut w);
    assert_eq!(w.entities[0].runner.0.executions, 3);
    assert_eq!(w.entities[1].runner.0.executions, 1);
}

#[test]
fn singleton_and_entities_run_in_one_drive() {
    let mut w = world_with(vec![(7, ScheduleRunner::default())], Some(1));
    w.runner_resource = Some(ScheduleRunner::default());
    schedule_runner_system(&mut w);
    assert_eq!(w.runner_resource.as_ref().unwrap().0.executions, 1);
    assert_eq!(w.entities[0].runner.0.executions, 1);
}

#[test]
fn an_entity_destroyed_mid_drive_just_loses_its_schedule() {
    let mut w = world_with(
        vec![(5, ScheduleRunner::default().add_system(1)), (8, ScheduleRunner::default())],
        Some(42),
    );
    let mut detached = detach_all(&mut w);
    // The entity vanishes between detach and reattach.
    w.entities.remove(1);
    run_detached(&mut detached, &mut w);
    reattach_all(&mut w, detached);
    assert_eq!(w.entities.len(), 1);
    assert_eq!(w.entities[0].entity, 5);
    // The surviving entity got its schedule back, run once.
    assert_eq!(w.entities[0].runner.0.executions, 1);
    assert_eq!(w.entities[0].runner.0.stages[2].systems, vec![1]);
}

#[test]
fn detach_leaves_placeholders_and_reattach_restores() {
    let mut w = world_with(vec![(9, ScheduleRunner::default().add_system(33))], None);
    let detached = detach_all(&mut w);
    // Detached: the slot holds the empty placeholder.
    assert!(w.entities[0].runner.0.stages.is_empty());
    assert_eq!(detached.len(), 1);
    assert_eq!(detached[0].0, 9);
    reattach_all(&mut w, detached);
    assert_eq!(w.entities[0].runner.0.stages.len(), 5);
    assert_eq!(w.entities[0].runner.0.stages[2].systems, vec![33]);
}

#[test]
fn completed_ticks_saturate_at_the_cap() {
    let mut w = HostWorld::new();
    let mut sched = PackedSchedule::default();
    sched.executions = u64::MAX;
    let ticks = sched.run(&mut w);
    assert_eq!(ticks, 1);
    assert_eq!(sched.executions, u64::MAX);
}
