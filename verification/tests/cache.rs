use orynth::cache::{CacheError, CacheKey, CacheObservation, CacheTelemetry};
use orynth::kernel::{ModelClass, ModelRef, Usage};

fn model() -> ModelRef {
    ModelRef::new("provider", "model", ModelClass::Cheap)
}

#[test]
fn missing_provider_cache_metadata_creates_no_observation() {
    let mut telemetry = CacheTelemetry::new();
    let observation = telemetry
        .record(&model(), [1; 32], 20, Usage::new(20, 4), 10)
        .expect("missing metadata is not an error");

    assert_eq!(observation, None);
    assert!(telemetry.is_empty());
}

#[test]
fn explicit_provider_metadata_is_recorded_without_inference() {
    let mut telemetry = CacheTelemetry::new();
    let observation = telemetry
        .record(
            &model(),
            [2; 32],
            20,
            Usage::new(20, 4).with_cached_input_tokens(13),
            100,
        )
        .expect("explicit metadata should record")
        .expect("observation should exist");

    assert_eq!(observation.observed_cached_tokens, 13);
    let record = telemetry
        .get(&observation.key)
        .expect("record should exist");
    assert_eq!(record.observations, 1);
    assert_eq!(record.last_cached_tokens, 13);
}

#[test]
fn inconsistent_provider_metadata_is_rejected() {
    let mut telemetry = CacheTelemetry::new();
    let result = telemetry.record(
        &model(),
        [3; 32],
        20,
        Usage::new(10, 4).with_cached_input_tokens(11),
        100,
    );

    assert_eq!(
        result,
        Err(CacheError::CachedTokensExceedInput {
            cached: 11,
            input: 10
        })
    );
    assert!(telemetry.is_empty());
}

#[test]
fn observations_aggregate_by_provider_model_and_prefix() {
    let mut telemetry = CacheTelemetry::new();
    let model = model();
    let first = telemetry
        .record(
            &model,
            [4; 32],
            20,
            Usage::new(20, 1).with_cached_input_tokens(8),
            200,
        )
        .expect("first observation")
        .expect("first observation should exist");
    telemetry
        .record(
            &model,
            [4; 32],
            21,
            Usage::new(21, 1).with_cached_input_tokens(12),
            100,
        )
        .expect("second observation");

    let record = telemetry.get(&first.key).expect("aggregate record");
    assert_eq!(record.observations, 2);
    assert_eq!(record.total_cached_tokens, 20);
    assert_eq!(record.last_observed_at_ms, 200);
    assert_eq!(record.last_cached_tokens, 8);
    assert_eq!(record.last_estimated_prefix_tokens, 20);
}

#[test]
fn the_order_of_observations_does_not_matter() {
    let key = CacheKey::new(&model(), [9; 32]);
    let at = |when: u128, cached: u64| CacheObservation {
        key: key.clone(),
        estimated_prefix_tokens: cached + 1,
        observed_cached_tokens: cached,
        observed_at_ms: when,
    };
    let mut forwards = CacheTelemetry::new();
    forwards.record_observation(at(1, 10));
    forwards.record_observation(at(2, 20));
    let mut backwards = CacheTelemetry::new();
    backwards.record_observation(at(2, 20));
    backwards.record_observation(at(1, 10));
    assert_eq!(forwards, backwards);
    let record = forwards.get(&key).expect("record");
    assert_eq!(record.first_observed_at_ms, 1);
    assert_eq!(record.last_cached_tokens, 20);
    assert_eq!(forwards.len(), 1);
}

#[test]
fn totals_stop_at_the_largest_number_and_keys_stay_apart() {
    let mut telemetry = CacheTelemetry::default();
    let key = CacheKey::new(&model(), [9; 32]);
    for _ in 0..2 {
        telemetry.record_observation(CacheObservation {
            key: key.clone(),
            estimated_prefix_tokens: 1,
            observed_cached_tokens: u64::MAX,
            observed_at_ms: 5,
        });
    }
    assert_eq!(telemetry.get(&key).expect("record").total_cached_tokens, u64::MAX);
    let other = CacheKey::new(&model(), [8; 32]);
    assert!(telemetry.get(&other).is_none());
    assert_eq!(telemetry.records().len(), 1);
    assert_eq!(
        CacheError::CachedTokensExceedInput { cached: 11, input: 10 }.to_text(),
        "provider reported 11 cached input tokens, exceeding 10 input tokens"
    );
}
