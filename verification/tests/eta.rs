use inquest::collection::TextMap;
use inquest::eta::{
    calibration_bucket, format_duration_short, format_eta, format_prediction_debug,
    load_calibration_samples, predict, CalibrationSample, EtaModel, EtaState,
};
use inquest::repository::{RunId, RunMetadata, TestId, TestResult, TestRun};
use inquest::store::Store;
use inquest::time::{Duration, Timestamp};

fn prediction(
    tests: &Vec<TestId>,
    historical: &TextMap<Duration>,
    concurrency: u32,
    factor: f64,
) -> Vec<String> {
    let p = predict(tests, historical, concurrency);
    let nanos = p.per_worker.as_nanos() as f64 * factor;
    format_prediction_debug(
        &p,
        &format!("{:.2}", factor),
        Duration::from_nanos(nanos as u128),
    )
}

#[test]
fn format_duration_short_seconds() {
    assert_eq!(format_duration_short(Duration::from_secs(45)), "45s");
}

#[test]
fn format_duration_short_minutes() {
    assert_eq!(format_duration_short(Duration::from_secs(90)), "1m 30s");
}

#[test]
fn format_duration_short_hours() {
    assert_eq!(format_duration_short(Duration::from_secs(3661)), "1h 01m");
}

#[test]
fn format_duration_short_zero() {
    assert_eq!(format_duration_short(Duration::from_nanos(0)), "0s");
}

#[test]
fn format_eta_with_history() {
    let eta = format_eta(
        Duration::from_secs(100),
        Duration::from_secs(50),
        Duration::from_secs(60),
    );
    assert_eq!(eta, " ETA: 1m 00s");
}

#[test]
fn format_eta_no_history() {
    let eta = format_eta(Duration::from_nanos(0), Duration::from_nanos(0), Duration::from_secs(10));
    assert_eq!(eta, "");
}

#[test]
fn format_eta_no_elapsed() {
    let eta = format_eta(
        Duration::from_secs(100),
        Duration::from_secs(10),
        Duration::from_nanos(0),
    );
    assert_eq!(eta, "");
}

#[test]
fn format_eta_run_outpaces_estimate() {
    // When the actual run is faster than predicted, we clamp fraction_done
    // to 1.0 so the ETA stays visible (and shrinks to zero) rather than
    // disappearing.
    let eta = format_eta(
        Duration::from_secs(100),
        Duration::from_secs(120),
        Duration::from_secs(90),
    );
    assert_eq!(eta, " ETA: 0s");
}

#[test]
fn eta_model_empty_history() {
    let model = EtaModel::new(TextMap::new());
    assert!(!model.has_history());
    assert_eq!(model.duration_for(&TestId::new("anything")), Duration::from_nanos(0));
}

#[test]
fn eta_model_uses_mean_for_unknown() {
    let mut durations = TextMap::new();
    durations.insert("a", Duration::from_secs(2));
    durations.insert("b", Duration::from_secs(4));
    let model = EtaModel::new(durations);
    assert!(model.has_history());
    assert_eq!(
        model.duration_for(&TestId::new("a")),
        Duration::from_secs(2)
    );
    // Unknown test uses the mean of known durations (3s).
    assert_eq!(
        model.duration_for(&TestId::new("c")),
        Duration::from_secs(3)
    );
}

#[test]
fn eta_model_estimated_total_mixes_known_and_unknown() {
    let mut durations = TextMap::new();
    durations.insert("a", Duration::from_secs(10));
    durations.insert("b", Duration::from_secs(20));
    let model = EtaModel::new(durations);
    let tests = vec![TestId::new("a"), TestId::new("b"), TestId::new("c")];
    // Known tests sum to 30s; unknown gets 15s mean -> 45s total.
    assert_eq!(model.estimated_total(&tests), Duration::from_secs(45));
}

#[test]
fn eta_state_no_render_until_first_test_starts() {
    let mut state = EtaState::new(Duration::from_secs(100));
    let now = Duration::from_millis(20);
    assert_eq!(state.render(now), "");
    // A spurious completion without a prior start still does not render.
    state.add_completed(&TestId::new("a"), Duration::from_secs(50), now);
    assert_eq!(state.render(now), "");
}

#[test]
fn eta_state_renders_after_first_start() {
    let mut state = EtaState::new(Duration::from_secs(100));
    let mut now: u64 = 1_000;
    state.mark_started(&TestId::new("a"), Duration::from_secs(50), Duration::from_millis(now));
    now += 1;
    state.add_completed(&TestId::new("a"), Duration::from_secs(50), Duration::from_millis(now));
    now += 20;
    let rendered = state.render(Duration::from_millis(now));
    assert!(rendered.starts_with(" ETA: "), "got: {:?}", rendered);
}

#[test]
fn eta_state_in_flight_partial_credit() {
    // While a test is running, render() should credit it for time
    // already elapsed (capped at its expected duration). Without this,
    // completed_duration would stay flat between completion events.
    let mut state = EtaState::new(Duration::from_secs(100));
    let mut now: u64 = 1_000;
    state.mark_started(&TestId::new("a"), Duration::from_secs(60), Duration::from_millis(now));
    now += 40;
    // No completion yet, but the in-flight credit + non-zero elapsed
    // should produce a finite ETA string.
    let rendered = state.render(Duration::from_millis(now));
    assert!(rendered.starts_with(" ETA: "), "got: {:?}", rendered);
}

#[test]
fn eta_state_in_flight_credit_capped_at_expected() {
    // A test that runs longer than its history shouldn't accumulate
    // credit past its expected duration, otherwise an over-running test
    // would push completed past estimated_total and hide the ETA.
    let mut state = EtaState::new(Duration::from_secs(10));
    let mut now: u64 = 1_000;
    state.mark_started(&TestId::new("a"), Duration::from_millis(5), Duration::from_millis(now));
    now += 50;
    let rendered = state.render(Duration::from_millis(now));
    // Expected credit is 5ms (capped); fraction_done = 5ms/10s ≈ 0.0005.
    // After ~50ms elapsed, projected = 50ms / 0.0005 = 100s, remaining
    // ≈ 100s. We don't assert exact number — just that the ETA is
    // present and finite (large remaining is fine; what we want to
    // avoid is the empty-string return that you'd get if credit had
    // exceeded estimated_total).
    assert!(rendered.starts_with(" ETA: "), "got: {:?}", rendered);
}

#[test]
fn eta_state_completion_does_not_snap() {
    // The classic staircase: test runs, in-flight credit ticks up, then
    // completion snaps credit by `expected - actual_running_time`.
    // With wall-clock-equivalent semantics that snap should be zero —
    // completion just promotes the in-flight credit to completed without
    // changing the (completed + in_flight_credit) sum.
    let mut state = EtaState::new(Duration::from_secs(100));
    let mut now: u64 = 1_000;
    state.mark_started(&TestId::new("a"), Duration::from_secs(60), Duration::from_millis(now));
    now += 20;

    let credit_before = state.credit_snapshot(Duration::from_millis(now));
    state.add_completed(&TestId::new("a"), Duration::from_secs(60), Duration::from_millis(now));
    let credit_after = state.credit_snapshot(Duration::from_millis(now));

    // Should be within ~1ms (just the time spent acquiring the lock and
    // measuring `started_at.elapsed()`). The pre-fix code would have
    // snapped by ~60s here (expected - actual ≈ 60s - 20ms).
    let drift = credit_after.as_nanos() - credit_before.as_nanos();
    assert!(
        drift < Duration::from_millis(10).as_nanos(),
        "credit jumped by {:?} at completion (expected near zero)",
        drift
    );
}

#[test]
fn eta_state_estimated_total_shrinks_when_test_is_fast() {
    let mut state = EtaState::new(Duration::from_secs(100));
    let now: u64 = 1_000;
    state.mark_started(&TestId::new("a"), Duration::from_secs(60), Duration::from_millis(now));
    // No sleep: actual ≈ 0, expected = 60s. estimated_total should
    // shrink by ~60s.
    state.add_completed(&TestId::new("a"), Duration::from_secs(60), Duration::from_millis(now));
    let total = state.estimated_total;
    assert!(
        total.as_nanos() < Duration::from_secs(41).as_nanos(),
        "estimated_total = {:?}, expected ≈40s",
        total
    );
    assert!(
        total.as_nanos() > Duration::from_secs(39).as_nanos(),
        "estimated_total = {:?}, expected ≈40s",
        total
    );
}

#[test]
fn eta_state_completion_removes_from_in_flight() {
    // After completion, the test no longer contributes via in-flight
    // credit; only via completed_duration. Two starts then one
    // completion should leave one in-flight + one completed.
    let mut state = EtaState::new(Duration::from_secs(100));
    let mut now: u64 = 1_000;
    state.mark_started(&TestId::new("a"), Duration::from_secs(40), Duration::from_millis(now));
    state.mark_started(&TestId::new("b"), Duration::from_secs(40), Duration::from_millis(now));
    state.add_completed(&TestId::new("a"), Duration::from_secs(40), Duration::from_millis(now));
    now += 20;
    // Should still render — first_start_at is set and we have
    // completed + in-flight credit.
    let rendered = state.render(Duration::from_millis(now));
    assert!(rendered.starts_with(" ETA: "), "got: {:?}", rendered);
}
#[test]
fn load_calibration_samples_pulls_runs_with_full_metadata() {

    let mut repo = Store::new();

    let mut run0 = TestRun::new(RunId::new("0"));
    run0.timestamp = Timestamp { seconds: 1_000_000_000, nanos: 0 };
    run0.add_result(TestResult::success("a"));
    let id0 = repo.insert_test_run(run0);
    repo.set_run_metadata(
        &id0,
        RunMetadata {
            concurrency: Some(2),
            duration: Some(Duration::from_secs(45)),
            predicted_duration: Some(Duration::from_secs(30)),
            ..RunMetadata::default()
        },
    )
    .unwrap();

    // A run missing predicted_duration — should be skipped silently.
    let mut run1 = TestRun::new(RunId::new("1"));
    run1.timestamp = Timestamp { seconds: 1_000_000_001, nanos: 0 };
    run1.add_result(TestResult::success("a"));
    let id1 = repo.insert_test_run(run1);
    repo.set_run_metadata(
        &id1,
        RunMetadata {
            concurrency: Some(2),
            duration: Some(Duration::from_secs(20)),
            predicted_duration: None,
            ..RunMetadata::default()
        },
    )
    .unwrap();

    let samples = load_calibration_samples(&repo);
    assert_eq!(samples.len(), 1, "got: {:?}", samples);
    assert_eq!(samples[0].concurrency, 2);
    assert_eq!(samples[0].predicted, Duration::from_secs(30));
    assert_eq!(samples[0].actual, Duration::from_secs(45));
}

#[test]
fn format_prediction_debug_serial() {
    let mut historical = TextMap::new();
    historical.insert("a", Duration::from_secs(10));
    historical.insert("b", Duration::from_secs(20));
    let tests = vec![TestId::new("a"), TestId::new("b"), TestId::new("c")];
    let lines = prediction(&tests, &historical, 1, 1.0);
    // Known: a, b. Unknown: c → mean fallback 15s. Total 10+20+15 = 45s.
    assert_eq!(
        lines,
        vec![
            "ETA debug: 3 test(s) selected — 2 with history, 1 new (mean fallback 15s)."
                .to_string(),
            "  Raw estimate: 45s → calibrated (×1.00): 45s".to_string(),
        ]
    );
}

#[test]
fn format_prediction_debug_parallel_with_calibration() {
    let mut historical = TextMap::new();
    historical.insert("a", Duration::from_secs(60));
    historical.insert("b", Duration::from_secs(60));
    historical.insert("c", Duration::from_secs(60));
    historical.insert("d", Duration::from_secs(60));
    let tests = vec![
        TestId::new("a"),
        TestId::new("b"),
        TestId::new("c"),
        TestId::new("d"),
    ];
    let lines = prediction(&tests, &historical, 4, 1.5);
    // Raw 4×60 = 240s. /4 = 60s. ×1.5 = 90s.
    assert_eq!(
        lines,
        vec![
            "ETA debug: 4 test(s) selected — 4 with history, 0 new (mean fallback 1m 00s)."
                .to_string(),
            "  Raw sequential estimate: 4m 00s → 4-way parallel: 1m 00s → calibrated \
             (×1.50): 1m 30s"
                .to_string(),
        ]
    );
}

#[test]
fn format_prediction_debug_unknown_tests() {
    let lines = prediction(&vec![], &TextMap::new(), 2, 1.0);
    assert_eq!(
        lines,
        vec![
            "ETA debug: prediction breakdown unavailable (tests will be discovered \
             by the runner)."
                .to_string()
        ]
    );
}

#[test]
fn over_running_tests_are_credited_what_was_expected() {
    let mut state = EtaState::new(Duration::from_secs(10));
    let at = |n: u64| Duration::from_millis(n);
    state.mark_started(&TestId::new("a"), at(5), at(0));
    state.mark_started(&TestId::new("b"), at(100), at(10));
    assert_eq!(state.credit_snapshot(at(50)), at(45));
    state.add_completed(&TestId::new("b"), at(100), at(50));
    assert_eq!(state.credit_snapshot(at(50)), at(45));
    assert_eq!(state.completed_duration, at(40));
    assert_eq!(state.estimated_total, at(10_000 - 60));
}

#[test]
fn eta_rounds_and_handles_large_numbers() {
    let s = |n: u64| Duration::from_secs(n);
    assert_eq!(format_eta(s(3), s(1), s(1)), " ETA: 2s");
    assert_eq!(
        format_eta(s(1_000_000_000), s(500_000_000), s(1_000_000_000)),
        " ETA: 277777h 46m"
    );
    assert_eq!(
        format_eta(Duration::from_nanos(3), Duration::from_nanos(2), Duration::from_nanos(1)),
        " ETA: 0s"
    );
}

#[test]
fn only_the_last_usable_samples_count() {
    let sample = |c: u32, p: u64, a: u64| CalibrationSample {
        concurrency: c,
        predicted: Duration::from_secs(p),
        actual: Duration::from_secs(a),
    };
    let mut samples: Vec<CalibrationSample> = (0..30).map(|i| sample(2, 60, i + 1)).collect();
    samples.push(sample(2, 0, 5));
    samples.push(sample(2, 5, 0));
    samples.push(sample(4, 60, 90));
    let bucket = calibration_bucket(&samples, 2);
    assert_eq!(bucket.len(), 20);
    assert_eq!(bucket[0].actual, Duration::from_secs(11));
    assert_eq!(bucket[19].actual, Duration::from_secs(30));
    assert_eq!(calibration_bucket(&samples, 4).len(), 1);
    assert_eq!(calibration_bucket(&samples, 8).len(), 0);
}

#[test]
fn remaining_time_is_a_binary_fraction() {
    for (total, done, elapsed) in [
        (60_000u64, 20_000u64, 10_000u64),
        (3, 1, 1_000_000),
        (7_777, 3_333, 59_999),
        (10_000, 9_999, 36_000_000),
        (1_000, 999, 60_000_000),
        (5, 5, 5),
    ] {
        let d = |ms: u64| std::time::Duration::from_millis(ms);
        let fraction = (d(done).as_secs_f64() / d(total).as_secs_f64()).min(1.0);
        let projected = d(elapsed).as_secs_f64() / fraction;
        let rest = (projected - d(elapsed).as_secs_f64()).max(0.0);
        let rest = std::time::Duration::from_secs_f64(rest).as_nanos();
        let ms = |n: u64| Duration::from_millis(n);
        assert_eq!(
            format_eta(ms(total), ms(done), ms(elapsed)),
            format!(" ETA: {}", format_duration_short(Duration::from_nanos(rest)))
        );
    }
}
