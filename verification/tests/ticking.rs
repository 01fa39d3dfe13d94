use bevy_contrib_schedules::policy::{ScheduleType, NANOS_PER_SECOND};

fn drive_all(policy: &mut ScheduleType, deltas: &[u64]) -> Vec<u64> {
    deltas.iter().map(|d| policy.drive(Some(*d))).collect()
}

#[test]
fn always_ticks_once_with_time() {
    let mut p = ScheduleType::always();
    assert_eq!(p.drive(Some(123_456_789)), 1);
    assert_eq!(p, ScheduleType::Always);
}

#[test]
fn always_ticks_once_without_time() {
    let mut p = ScheduleType::always();
    assert_eq!(p.drive(None), 1);
    assert_eq!(p.drive(None), 1);
    assert_eq!(p, ScheduleType::Always);
}

#[test]
fn fixed_rate_starts_with_empty_accumulator() {
    assert_eq!(ScheduleType::fixed_rate(500), ScheduleType::Fixed(500, 0));
}

#[test]
fn accumulator_carries_across_drives() {
    // A half-second interval fed three 0.3 s deltas: ticks 0, 1, 0 and 0.4 s
    // left in the accumulator.
    let mut p = ScheduleType::fixed_rate(500_000_000);
    assert_eq!(drive_all(&mut p, &[300_000_000, 300_000_000, 300_000_000]), vec![0, 1, 0]);
    assert_eq!(p, ScheduleType::Fixed(500_000_000, 400_000_000));
}

#[test]
fn chunking_does_not_change_the_total() {
    let deltas_a = [300_000_000, 300_000_000, 300_000_000];
    let deltas_b = [900_000_000];
    let mut a = ScheduleType::fixed_rate(500_000_000);
    let mut b = ScheduleType::fixed_rate(500_000_000);
    let total_a: u64 = drive_all(&mut a, &deltas_a).iter().sum();
    let total_b: u64 = drive_all(&mut b, &deltas_b).iter().sum();
    assert_eq!(total_a, total_b);
    assert_eq!(total_a, 1);
    assert_eq!(a, b);
}

#[test]
fn missing_time_source_is_a_soft_failure() {
    let mut p = ScheduleType::Fixed(500, 123);
    assert_eq!(p.drive(None), 0);
    assert_eq!(p, ScheduleType::Fixed(500, 123));
    // The next drive with time resumes normally.
    assert_eq!(p.drive(Some(877)), 2);
    assert_eq!(p, ScheduleType::Fixed(500, 0));
}

#[test]
fn exact_interval_ticks_once_and_clears() {
    let mut p = ScheduleType::fixed_rate(1_000);
    assert_eq!(p.drive(Some(1_000)), 1);
    assert_eq!(p, ScheduleType::Fixed(1_000, 0));
}

#[test]
fn zero_delta_never_ticks() {
    let mut p = ScheduleType::fixed_rate(1_000);
    assert_eq!(p.drive(Some(0)), 0);
    assert_eq!(p, ScheduleType::Fixed(1_000, 0));
}

#[test]
fn a_long_stall_catches_up_unbounded() {
    let mut p = ScheduleType::fixed_rate(10);
    assert_eq!(p.drive(Some(1_005)), 100);
    assert_eq!(p, ScheduleType::Fixed(10, 5));
}

#[test]
fn inverse_rate_is_one_second_over_rate() {
    assert_eq!(
        ScheduleType::fixed_rate_inverse(10),
        ScheduleType::Fixed(NANOS_PER_SECOND / 10, 0)
    );
}

#[test]
fn inverse_rate_matches_fixed_rate_cadence() {
    // Ten ticks per second is the same cadence as one tick per 0.1 s.
    let deltas = [50_000_000, 250_000_000, 1_000, 99_999_000, 700_000_000];
    let mut inv = ScheduleType::fixed_rate_inverse(10);
    let mut fixed = ScheduleType::fixed_rate(100_000_000);
    for d in deltas {
        assert_eq!(inv.drive(Some(d)), fixed.drive(Some(d)));
        assert_eq!(inv, fixed);
    }
}
