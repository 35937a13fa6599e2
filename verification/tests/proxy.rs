//! Checks of the proxy-side logic: configuration defaulting, the retry
//! policy, the error taxonomy and its transport mapping, and the
//! request validation and response bodies.

use seminstruct::api::{backend_error_body, health_report, models_error_body};
use seminstruct::client::{
    backoff_ms, chat_completions_url, decide, error_to_http, health_url, is_success_status,
    models_url, u64_to_string, AttemptOutcome, RetryDecision, ShimmyError,
};
use seminstruct::{ChatCompletionRequest, ChatMessage, Config};

fn config_from(
    url: Option<&str>,
    port: Option<&str>,
    timeout: Option<&str>,
    retries: Option<&str>,
) -> Config {
    Config::from_values(
        url.map(|s| s.to_string()),
        port.map(|s| s.to_string()),
        timeout.map(|s| s.to_string()),
        retries.map(|s| s.to_string()),
    )
}

#[test]
fn test_config_defaults() {
    let config = config_from(None, None, None, None);
    assert_eq!(config.shimmy_url, "http://localhost:8080");
    assert_eq!(config.port, 8083);
    assert_eq!(config.timeout_seconds, 120);
    assert_eq!(config.max_retries, 3);
}

#[test]
fn test_config_from_values() {
    let config = config_from(Some("http://shimmy:9000"), Some("9999"), Some("60"), Some("5"));
    assert_eq!(config.shimmy_url, "http://shimmy:9000");
    assert_eq!(config.port, 9999);
    assert_eq!(config.timeout_seconds, 60);
    assert_eq!(config.max_retries, 5);
}

#[test]
fn test_config_invalid_port_uses_default() {
    let config = config_from(None, Some("not_a_number"), None, None);
    assert_eq!(config.port, 8083);
}

#[test]
fn test_config_invalid_timeout_uses_default() {
    let config = config_from(None, None, Some("invalid"), None);
    assert_eq!(config.timeout_seconds, 120);
}

#[test]
fn test_config_overlarge_port_uses_default() {
    let config = config_from(None, Some("65536"), None, None);
    assert_eq!(config.port, 8083);
    let edge = config_from(None, Some("65535"), None, None);
    assert_eq!(edge.port, 65535);
}

#[test]
fn test_shimmy_error_display_shimmy_error() {
    let err = ShimmyError::ShimmyError { status: 500, message: "Internal server error".to_string() };
    assert_eq!(err.message(), "Shimmy returned error: 500 - Internal server error");
}

#[test]
fn test_shimmy_error_display_unavailable() {
    let err = ShimmyError::Unavailable;
    assert_eq!(err.message(), "Shimmy is unavailable");
}

#[test]
fn test_shimmy_error_display_request() {
    let err = ShimmyError::Request { timeout: false, message: "connection refused".to_string() };
    assert_eq!(err.message(), "HTTP request failed: connection refused");
}

#[test]
fn decimal_rendering() {
    assert_eq!(u64_to_string(0), "0");
    assert_eq!(u64_to_string(7), "7");
    assert_eq!(u64_to_string(500), "500");
    assert_eq!(u64_to_string(12345), "12345");
    assert_eq!(u64_to_string(u64::MAX), "18446744073709551615");
}

#[test]
fn backoff_doubles_per_attempt() {
    assert_eq!(backoff_ms(0), 100);
    assert_eq!(backoff_ms(1), 200);
    assert_eq!(backoff_ms(2), 400);
    assert_eq!(backoff_ms(3), 800);
    // The exponent is capped, so the delay stays finite.
    assert_eq!(backoff_ms(60), backoff_ms(56));
}

#[test]
fn retry_policy_success_is_done() {
    match decide(0, 3, AttemptOutcome::Success) {
        RetryDecision::Done => {}
        _ => panic!("success must not be retried"),
    }
}

#[test]
fn retry_policy_retries_with_backoff_then_fails() {
    let outcome = || AttemptOutcome::HttpError { status: 500, message: "boom".to_string() };
    match decide(0, 3, outcome()) {
        RetryDecision::Retry { delay_ms, error } => {
            assert_eq!(delay_ms, 200);
            match error {
                ShimmyError::ShimmyError { status, message } => {
                    assert_eq!(status, 500);
                    assert_eq!(message, "boom");
                }
                _ => panic!("an HTTP error maps to the upstream-error variant"),
            }
        }
        _ => panic!("attempts remain, so the call must be retried"),
    }
    match decide(3, 3, outcome()) {
        RetryDecision::Fail(ShimmyError::ShimmyError { status, .. }) => assert_eq!(status, 500),
        _ => panic!("the last attempt's failure is surfaced"),
    }
}

#[test]
fn retry_policy_transport_failures_map_to_request_errors() {
    let outcome = AttemptOutcome::Transport { timeout: true, message: "timed out".to_string() };
    match decide(2, 2, outcome) {
        RetryDecision::Fail(ShimmyError::Request { timeout, message }) => {
            assert!(timeout);
            assert_eq!(message, "timed out");
        }
        _ => panic!("a transport failure maps to the request variant"),
    }
}

#[test]
fn error_mapping_passes_valid_statuses_through() {
    let (status, message) =
        error_to_http(&ShimmyError::ShimmyError { status: 500, message: "oops".to_string() });
    assert_eq!(status, 500);
    assert_eq!(message, "oops");
    let (bad, _) =
        error_to_http(&ShimmyError::ShimmyError { status: 99, message: "odd".to_string() });
    assert_eq!(bad, 502);
}

#[test]
fn error_mapping_unavailable_and_transport() {
    let (status, message) = error_to_http(&ShimmyError::Unavailable);
    assert_eq!(status, 503);
    assert_eq!(message, "Shimmy backend is unavailable");

    let (timeout_status, timeout_message) =
        error_to_http(&ShimmyError::Request { timeout: true, message: "slow".to_string() });
    assert_eq!(timeout_status, 504);
    assert_eq!(timeout_message, "Request to shimmy timed out");

    let (other_status, other_message) =
        error_to_http(&ShimmyError::Request { timeout: false, message: "refused".to_string() });
    assert_eq!(other_status, 502);
    assert_eq!(other_message, "Shimmy request failed: refused");
}

#[test]
fn success_statuses_are_the_two_hundreds() {
    assert!(is_success_status(200));
    assert!(is_success_status(299));
    assert!(!is_success_status(199));
    assert!(!is_success_status(300));
    assert!(!is_success_status(503));
}

#[test]
fn endpoint_urls() {
    let base = "http://localhost:8080".to_string();
    assert_eq!(chat_completions_url(&base), "http://localhost:8080/v1/chat/completions");
    assert_eq!(models_url(&base), "http://localhost:8080/v1/models");
    assert_eq!(health_url(&base), "http://localhost:8080/health");
}

#[test]
fn test_empty_messages_detected() {
    let req = ChatCompletionRequest {
        model: "mistral-7b-instruct".to_string(),
        messages: vec![],
        max_tokens: None,
        temperature_milli: None,
        top_p_milli: None,
        stream: None,
    };
    assert!(req.messages.is_empty());
    let (status, body) = req.validate().expect("an empty message array is rejected");
    assert_eq!(status, 400);
    assert_eq!(body.error.message, "Messages array cannot be empty");
    assert_eq!(body.error.error_type, "invalid_request_error");
    assert_eq!(body.error.code.as_deref(), Some("invalid_messages"));
}

#[test]
fn nonempty_requests_validate() {
    let req = ChatCompletionRequest {
        model: "mistral-7b-instruct".to_string(),
        messages: vec![ChatMessage { role: "user".to_string(), content: "Hello!".to_string() }],
        max_tokens: Some(100),
        temperature_milli: Some(700),
        top_p_milli: None,
        stream: None,
    };
    assert!(req.validate().is_none());
}

#[test]
fn request_knobs_become_engine_parameters() {
    let req = ChatCompletionRequest {
        model: "mistral-7b-instruct".to_string(),
        messages: vec![ChatMessage { role: "user".to_string(), content: "Hi".to_string() }],
        max_tokens: Some(5000),
        temperature_milli: Some(2_000_000),
        top_p_milli: Some(0),
        stream: None,
    };
    let params = req.gen_params();
    assert_eq!(params.max_new_tokens, 100);
    assert_eq!(params.min_length, 20);
    assert_eq!(params.sampling.temperature_milli, 1_000_000);
    assert_eq!(params.sampling.top_p_milli, Some(1));
    assert_eq!(params.sampling.penalty_milli, 1100);

    let bare = ChatCompletionRequest {
        model: "mistral-7b-instruct".to_string(),
        messages: vec![ChatMessage { role: "user".to_string(), content: "Hi".to_string() }],
        max_tokens: None,
        temperature_milli: None,
        top_p_milli: None,
        stream: None,
    };
    let defaults = bare.gen_params();
    assert_eq!(defaults.max_new_tokens, 100);
    assert_eq!(defaults.sampling.temperature_milli, 0);
    assert_eq!(defaults.sampling.top_p_milli, None);
}

#[test]
fn health_report_statuses() {
    let (ok_status, ok_body) = health_report("http://shimmy:8080".to_string(), true);
    assert_eq!(ok_status, 200);
    assert_eq!(ok_body.status, "healthy");
    assert_eq!(ok_body.shimmy_url, "http://shimmy:8080");
    assert!(ok_body.shimmy_healthy);

    let (bad_status, bad_body) = health_report("http://shimmy:8080".to_string(), false);
    assert_eq!(bad_status, 503);
    assert_eq!(bad_body.status, "degraded");
    assert!(!bad_body.shimmy_healthy);
}

#[test]
fn error_bodies() {
    let body = backend_error_body("went wrong".to_string());
    assert_eq!(body.error.message, "went wrong");
    assert_eq!(body.error.error_type, "backend_error");
    assert_eq!(body.error.code.as_deref(), Some("shimmy_error"));

    let models = models_error_body();
    assert_eq!(models.error.message, "Failed to get models from shimmy");
}
