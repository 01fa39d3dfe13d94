use bevy_contrib_schedules::policy::ScheduleType;
use bevy_contrib_schedules::runner::{ScheduleRunner, FIRST, LAST, POST_UPDATE, PRE_UPDATE, UPDATE};

fn stage_names(r: &ScheduleRunner) -> Vec<&str> {
    r.0.stages.iter().map(|s| s.name.as_str()).collect()
}

fn stage_systems<'a>(r: &'a ScheduleRunner, name: &str) -> &'a Vec<u64> {
    &r.0.stages.iter().find(|s| s.name == name).unwrap().systems
}

#[test]
fn default_runner_has_the_five_stages() {
    let r = ScheduleRunner::default();
    assert_eq!(stage_names(&r), vec![FIRST, PRE_UPDATE, UPDATE, POST_UPDATE, LAST]);
    assert_eq!(stage_names(&r), vec!["first", "pre_update", "update", "post_update", "last"]);
    assert_eq!(r.0.policy, ScheduleType::Always);
    assert_eq!(r.0.executions, 0);
    for s in &r.0.stages {
        assert!(s.systems.is_empty());
    }
}

#[test]
fn from_rate_sets_a_fixed_policy() {
    let r = ScheduleRunner::from_rate(2_000_000_000);
    assert_eq!(r.0.policy, ScheduleType::Fixed(2_000_000_000, 0));
    assert_eq!(stage_names(&r).len(), 5);
}

#[test]
fn from_rate_inv_sets_the_inverse_interval() {
    let r = ScheduleRunner::from_rate_inv(10);
    assert_eq!(r.0.policy, ScheduleType::Fixed(100_000_000, 0));
}

#[test]
fn add_stage_appends_at_the_end() {
    let r = ScheduleRunner::default().add_stage("cleanup");
    assert_eq!(
        stage_names(&r),
        vec!["first", "pre_update", "update", "post_update", "last", "cleanup"]
    );
}

#[test]
fn add_stage_after_inserts_behind_the_target() {
    let r = ScheduleRunner::default().add_stage_after("update", "physics");
    assert_eq!(
        stage_names(&r),
        vec!["first", "pre_update", "update", "physics", "post_update", "last"]
    );
}

#[test]
fn add_stage_before_inserts_ahead_of_the_target() {
    let r = ScheduleRunner::default().add_stage_before("first", "boot");
    assert_eq!(
        stage_names(&r),
        vec!["boot", "first", "pre_update", "update", "post_update", "last"]
    );
}

#[test]
fn has_stage_guards_builder_misuse() {
    // Duplicate names and unknown targets are caller errors; `has_stage` is
    // the guard a caller checks before inserting.
    let r = ScheduleRunner::default();
    assert!(r.has_stage("update"));
    assert!(!r.has_stage("physics"));
    let r = r.add_stage("physics");
    assert!(r.has_stage("physics"));
}

#[test]
fn add_system_goes_to_the_update_stage() {
    let r = ScheduleRunner::default().add_system(7);
    assert_eq!(stage_systems(&r, "update"), &vec![7]);
    assert!(stage_systems(&r, "first").is_empty());
}

#[test]
fn add_systems_appends_in_order() {
    let r = ScheduleRunner::default().add_system(1).add_systems(vec![2, 3]);
    assert_eq!(stage_systems(&r, "update"), &vec![1, 2, 3]);
}

#[test]
fn add_system_to_stage_targets_that_stage() {
    let r = ScheduleRunner::default().add_system_to_stage("last", 9);
    assert_eq!(stage_systems(&r, "last"), &vec![9]);
    assert!(stage_systems(&r, "update").is_empty());
}

#[test]
fn add_system_to_stage_front_prepends() {
    let r = ScheduleRunner::default().add_system(1).add_system_to_stage_front("update", 2);
    assert_eq!(stage_systems(&r, "update"), &vec![2, 1]);
}

#[test]
fn add_systems_to_stage_appends_all() {
    let r = ScheduleRunner::default()
        .add_system_to_stage("pre_update", 4)
        .add_systems_to_stage("pre_update", vec![5, 6]);
    assert_eq!(stage_systems(&r, "pre_update"), &vec![4, 5, 6]);
}
