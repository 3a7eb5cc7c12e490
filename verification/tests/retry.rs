use durable_evals::failure::{
    failure_class_label, failure_class_to_str, parse_failure_class, ErrorInfo, FailureClass,
};
use durable_evals::retry::{default_max_attempts, default_retryable_classes, RetryPolicy};

fn policy(base: u64, cap: u64, jitter: bool) -> RetryPolicy {
    RetryPolicy {
        base_delay_ms: base,
        max_delay_ms: cap,
        jitter,
        ..RetryPolicy::default()
    }
}

fn classes() -> [FailureClass; 5] {
    [
        FailureClass::Transient,
        FailureClass::ResourceUnavailable,
        FailureClass::EvalException,
        FailureClass::DurableHarnessError,
        FailureClass::ArtifactError,
    ]
}

#[test]
fn default_policy_retries_what_may_pass() {
    let policy = RetryPolicy::default();
    assert_eq!(policy.max_attempts, 2);
    assert_eq!(default_max_attempts(), 2);
    assert_eq!(policy.base_delay_ms, 0);
    assert_eq!(policy.max_delay_ms, 0);
    assert_eq!(policy.jitter, false);
    assert_eq!(
        default_retryable_classes(),
        vec![FailureClass::Transient, FailureClass::ResourceUnavailable]
    );
    assert_eq!(policy.retryable, default_retryable_classes());
    assert_eq!(policy.terminal, vec![]);
}

#[test]
fn delay_doubles_up_to_the_cap() {
    assert_eq!(policy(0, 0, true).backoff_delay_ms(5, 3), 0);
    assert_eq!(policy(100, 0, false).backoff_delay_ms(0, 0), 100);
    assert_eq!(policy(100, 0, false).backoff_delay_ms(1, 0), 100);
    assert_eq!(policy(100, 0, false).backoff_delay_ms(2, 0), 200);
    assert_eq!(policy(100, 0, false).backoff_delay_ms(5, 0), 1600);
    assert_eq!(policy(100, 1000, false).backoff_delay_ms(5, 0), 1000);
    assert_eq!(policy(1, 0, false).backoff_delay_ms(33, 0), 1 << 32);
    assert_eq!(policy(1, 0, false).backoff_delay_ms(34, 0), 8_589_934_592);
    assert_eq!(policy(1, 0, false).backoff_delay_ms(64, 0), 1 << 63);
    assert_eq!(policy(1, 0, false).backoff_delay_ms(65, 0), u64::MAX);
    assert_eq!(policy(3, 0, false).backoff_delay_ms(64, 0), u64::MAX);
    assert_eq!(policy(1, 0, false).backoff_delay_ms(u32::MAX, 0), u64::MAX);
    assert_eq!(policy(1, 60_000, false).backoff_delay_ms(u32::MAX, 0), 60_000);
    assert_eq!(policy(u64::MAX, 0, false).backoff_delay_ms(2, 0), u64::MAX);
}

#[test]
fn jitter_scales_as_doubles_do() {
    let delays = [
        1,
        2,
        3,
        999,
        1000,
        60_000,
        86_399_999,
        (1 << 40) + 7,
        (1 << 53) - 1,
        (1 << 53) + 1,
        (1 << 54) + 2,
        (1 << 62) + 12345,
        u64::MAX - 1,
        u64::MAX,
    ];
    for delay in delays {
        for seed in (0..2500).step_by(7) {
            let frac = 0.5 + ((seed % 1000) as f64 / 1000.0) * 0.5;
            let expected = ((delay as f64) * frac) as u64;
            assert_eq!(
                policy(delay, 0, true).backoff_delay_ms(1, seed),
                expected,
                "delay {} seed {}",
                delay,
                seed
            );
        }
    }
}

#[test]
fn jitter_keeps_at_least_half() {
    let policy = policy(60_000, 0, true);
    assert_eq!(policy.backoff_delay_ms(1, 0), 30_000);
    assert_eq!(policy.backoff_delay_ms(1, 500), 45_000);
    assert_eq!(policy.backoff_delay_ms(1, 999), 59_970);
    assert_eq!(policy.backoff_delay_ms(1, 1000), 30_000);
}

#[test]
fn classes_survive_storage() {
    for class in classes() {
        assert_eq!(
            parse_failure_class(failure_class_to_str(&class).to_string()),
            class
        );
        assert_eq!(failure_class_label(&class), format!("{:?}", class));
    }
    assert_eq!(
        parse_failure_class("terminal_eval".to_string()),
        FailureClass::EvalException
    );
    assert_eq!(FailureClass::default(), FailureClass::EvalException);
    assert_eq!(failure_class_to_str(&FailureClass::ArtifactError), "artifact_error");
}

#[test]
fn reports_override_the_policy() {
    let policy = RetryPolicy::default();
    for class in classes() {
        let mut error = ErrorInfo {
            error_type: "E".to_string(),
            message: "m".to_string(),
            failure_class: class,
            stack: None,
            retryable: None,
        };
        let by_class = matches!(
            class,
            FailureClass::Transient | FailureClass::ResourceUnavailable
        );
        assert_eq!(policy.retries(&error), by_class);
        error.retryable = Some(true);
        assert!(policy.retries(&error));
        error.retryable = Some(false);
        assert!(!policy.retries(&error));
    }
}

#[test]
fn jitter_shortens_and_keeps_order() {
    for delay in [1, 2, 1000, (1 << 54) + 2, u64::MAX] {
        let mut last = 0;
        for seed in 0..1000 {
            let jittered = policy(delay, 0, true).backoff_delay_ms(1, seed);
            assert!(jittered < delay);
            assert!(jittered >= last);
            assert!(seed == 0 || jittered >= delay / 2);
            last = jittered;
        }
    }
    for attempt in 1..70 {
        let capped = policy(7, 100_000, true);
        assert!(capped.backoff_delay_ms(attempt, 999) <= 100_000);
        assert!(capped.backoff_delay_ms(attempt, 5) <= capped.backoff_delay_ms(attempt + 1, 5));
    }
    // As a double this delay is 2^54, and half of that is less than half of the delay.
    let long = policy((1 << 54) + 2, 0, true);
    assert_eq!(long.backoff_delay_ms(1, 0), 1 << 53);
}
