use murk::engine::batched::{batch_topology_error, field_schema_error, observe_buffer_error, BatchShapeError};
use murk::engine::realtime::per_agent_lens;
use murk::engine::config::{validate_world_shape, WorldConfigError};
use murk::engine::realtime::{shutdown_step, ShutdownAction, ShutdownState};

/// The plain-value parts of a world configuration, with float settings.
struct Shape {
    cell_count: usize,
    field_checks: Vec<Result<(), String>>,
    ring_buffer_size: usize,
    max_ingress_queue: usize,
    tick_rate_hz: Option<f64>,
    initial_max_skew: u64,
    max_skew_cap: u64,
    backoff_factor: f64,
    rejection_rate_threshold: f64,
    decay_rate: u64,
}

fn valid_shape() -> Shape {
    Shape {
        cell_count: 10,
        field_checks: vec![Ok(())],
        ring_buffer_size: 8,
        max_ingress_queue: 1024,
        tick_rate_hz: None,
        initial_max_skew: 2,
        max_skew_cap: 10,
        backoff_factor: 1.5,
        rejection_rate_threshold: 0.20,
        decay_rate: 60,
    }
}

fn validate(s: &Shape) -> Result<(), WorldConfigError> {
    let tick_rate_valid = match s.tick_rate_hz {
        Some(hz) => hz.is_finite() && hz > 0.0 && (1.0 / hz).is_finite(),
        None => true,
    };
    let factor_valid = s.backoff_factor.is_finite() && s.backoff_factor >= 1.0;
    let threshold_valid = s.rejection_rate_threshold.is_finite()
        && s.rejection_rate_threshold >= 0.0
        && s.rejection_rate_threshold <= 1.0;
    validate_world_shape(
        s.cell_count,
        &s.field_checks,
        s.ring_buffer_size,
        s.max_ingress_queue,
        tick_rate_valid,
        s.initial_max_skew,
        s.max_skew_cap,
        factor_valid,
        threshold_valid,
        s.decay_rate,
    )
}

#[test]
fn validate_valid_shape_succeeds() {
    assert!(validate(&valid_shape()).is_ok());
}

#[test]
fn validate_empty_space_fails() {
    let mut s = valid_shape();
    s.cell_count = 0;
    s.field_checks.clear();
    assert!(matches!(validate(&s), Err(WorldConfigError::EmptySpace)));
}

#[test]
fn validate_no_fields_fails() {
    let mut s = valid_shape();
    s.field_checks.clear();
    assert!(matches!(validate(&s), Err(WorldConfigError::NoFields)));
}

#[test]
fn validate_reports_first_invalid_field() {
    let mut s = valid_shape();
    s.field_checks = vec![Ok(()), Err("first".to_string()), Err("second".to_string())];
    s.ring_buffer_size = 0;
    match validate(&s) {
        Err(WorldConfigError::InvalidField { reason }) => assert_eq!(reason, "first"),
        other => panic!("expected InvalidField, got {other:?}"),
    }
}

#[test]
fn validate_cell_count_overflow_fails() {
    let mut s = valid_shape();
    s.cell_count = u32::MAX as usize + 1;
    match validate(&s) {
        Err(WorldConfigError::CellCountOverflow { value }) => {
            assert_eq!(value, u32::MAX as usize + 1)
        }
        other => panic!("expected CellCountOverflow, got {other:?}"),
    }
}

#[test]
fn validate_small_ring_and_zero_queue_fail_in_order() {
    let mut s = valid_shape();
    s.ring_buffer_size = 1;
    s.max_ingress_queue = 0;
    assert!(matches!(
        validate(&s),
        Err(WorldConfigError::RingBufferTooSmall { configured: 1 })
    ));
    s.ring_buffer_size = 2;
    assert!(matches!(validate(&s), Err(WorldConfigError::IngressQueueZero)));
}

#[test]
fn validate_backoff_initial_exceeds_cap_fails() {
    let mut s = valid_shape();
    s.initial_max_skew = 100;
    s.max_skew_cap = 5;
    assert!(matches!(
        validate(&s),
        Err(WorldConfigError::BackoffSkewExceedsCap { initial: 100, cap: 5 })
    ));
}

#[test]
fn validate_backoff_nan_factor_fails() {
    let mut s = valid_shape();
    s.backoff_factor = f64::NAN;
    assert!(matches!(validate(&s), Err(WorldConfigError::BackoffInvalidFactor)));
}

#[test]
fn validate_backoff_factor_below_one_fails() {
    let mut s = valid_shape();
    s.backoff_factor = 0.5;
    assert!(matches!(validate(&s), Err(WorldConfigError::BackoffInvalidFactor)));
}

#[test]
fn validate_backoff_threshold_out_of_range_fails() {
    let mut s = valid_shape();
    s.rejection_rate_threshold = 1.5;
    assert!(matches!(validate(&s), Err(WorldConfigError::BackoffInvalidThreshold)));
}

#[test]
fn validate_backoff_zero_decay_rate_fails() {
    let mut s = valid_shape();
    s.decay_rate = 0;
    assert!(matches!(validate(&s), Err(WorldConfigError::BackoffZeroDecayRate)));
}

#[test]
fn validate_subnormal_tick_rate_hz_rejected() {
    let mut s = valid_shape();
    s.tick_rate_hz = Some(f64::from_bits(1));
    assert!(matches!(validate(&s), Err(WorldConfigError::InvalidTickRate)));
}

#[test]
fn validate_valid_backoff_succeeds() {
    let mut s = valid_shape();
    s.initial_max_skew = 5;
    s.max_skew_cap = 10;
    s.backoff_factor = 1.5;
    s.decay_rate = 60;
    s.rejection_rate_threshold = 0.20;
    assert!(validate(&s).is_ok());
}

#[test]
fn validate_negative_tick_rate_hz_rejected() {
    let mut s = valid_shape();
    s.tick_rate_hz = Some(-60.0);
    assert!(matches!(validate(&s), Err(WorldConfigError::InvalidTickRate)));
}

#[test]
fn validate_infinite_tick_rate_hz_rejected() {
    let mut s = valid_shape();
    s.tick_rate_hz = Some(f64::INFINITY);
    assert!(matches!(validate(&s), Err(WorldConfigError::InvalidTickRate)));
}

#[test]
fn validate_nan_tick_rate_hz_rejected() {
    let mut s = valid_shape();
    s.tick_rate_hz = Some(f64::NAN);
    assert!(matches!(validate(&s), Err(WorldConfigError::InvalidTickRate)));
}

#[test]
fn validate_zero_tick_rate_hz_rejected() {
    let mut s = valid_shape();
    s.tick_rate_hz = Some(0.0);
    assert!(matches!(validate(&s), Err(WorldConfigError::InvalidTickRate)));
}

#[test]
fn validate_negative_backoff_threshold_rejected() {
    let mut s = valid_shape();
    s.rejection_rate_threshold = -0.1;
    assert!(matches!(validate(&s), Err(WorldConfigError::BackoffInvalidThreshold)));
}

#[test]
fn validate_nan_backoff_threshold_rejected() {
    let mut s = valid_shape();
    s.rejection_rate_threshold = f64::NAN;
    assert!(matches!(validate(&s), Err(WorldConfigError::BackoffInvalidThreshold)));
}

#[test]
fn shutdown_walks_through_its_phases() {
    let (p, a) = shutdown_step(ShutdownState::Running, false, false, 0);
    assert_eq!((p, a), (ShutdownState::Draining, ShutdownAction::SignalStop));
    // Tick thread still running inside the drain budget: wait.
    assert_eq!(
        shutdown_step(p, false, false, 33),
        (ShutdownState::Draining, ShutdownAction::Wait)
    );
    // Past the budget: move on anyway.
    let (p, a) = shutdown_step(p, false, false, 34);
    assert_eq!((p, a), (ShutdownState::Quiescing, ShutdownAction::CancelWorkers));
    assert_eq!(
        shutdown_step(p, true, false, 200),
        (ShutdownState::Quiescing, ShutdownAction::Wait)
    );
    let (p, a) = shutdown_step(p, true, true, 1);
    assert_eq!((p, a), (ShutdownState::Dropped, ShutdownAction::JoinAll));
    assert_eq!(
        shutdown_step(p, true, true, 0),
        (ShutdownState::Dropped, ShutdownAction::Nothing)
    );
}

#[test]
fn shutdown_drains_as_soon_as_the_tick_stops() {
    assert_eq!(
        shutdown_step(ShutdownState::Draining, true, false, 0),
        (ShutdownState::Quiescing, ShutdownAction::CancelWorkers)
    );
    assert_eq!(
        shutdown_step(ShutdownState::Quiescing, false, false, 201),
        (ShutdownState::Dropped, ShutdownAction::JoinAll)
    );
}

#[test]
fn batch_topologies_must_match() {
    assert_eq!(batch_topology_error(0, &[]), Some(BatchShapeError::NoWorlds));
    assert_eq!(batch_topology_error(1, &[]), None);
    assert_eq!(batch_topology_error(3, &[true, true]), None);
    assert_eq!(
        batch_topology_error(4, &[true, false, false]),
        Some(BatchShapeError::TopologyMismatch { world: 2 })
    );
}

#[test]
fn batch_field_schemas_must_match() {
    let same = vec![vec![Some(10), Some(10)], vec![None, None]];
    assert_eq!(field_schema_error(&same), None);
    let differ = vec![
        vec![Some(10), Some(10), Some(10)],
        vec![Some(4), Some(4), None],
        vec![Some(1), Some(2), Some(2)],
    ];
    assert_eq!(
        field_schema_error(&differ),
        Some(BatchShapeError::FieldSchemaMismatch { entry: 1, world: 2 })
    );
}

#[test]
fn batch_observe_buffers_are_checked_in_order() {
    assert_eq!(observe_buffer_error(false, true, 2, 10, 5, 0, 0), Some(BatchShapeError::NoObsPlan));
    assert_eq!(
        observe_buffer_error(true, true, 2, 10, 5, 0, 0),
        Some(BatchShapeError::AgentRelativePlan)
    );
    assert_eq!(
        observe_buffer_error(true, false, 2, 10, 5, 19, 0),
        Some(BatchShapeError::OutputTooSmall { got: 19, needed: 20 })
    );
    assert_eq!(
        observe_buffer_error(true, false, 2, 10, 5, 20, 9),
        Some(BatchShapeError::MaskTooSmall { got: 9, needed: 10 })
    );
    assert_eq!(observe_buffer_error(true, false, 2, 10, 5, 20, 10), None);
}

#[test]
fn agents_share_the_buffers_equally() {
    assert_eq!(per_agent_lens(3, 100, 10), (33, 3));
    assert_eq!(per_agent_lens(0, 100, 10), (0, 0));
}
