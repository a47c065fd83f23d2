use lwm2m_server_rs::error::ServerError;
use lwm2m_server_rs::reliability::should_retry;
use tower_resilience_cache::CacheError;
use tower_resilience_coalesce::CoalesceError;

/// Documents which variants are permanent and which are transient.
#[test]
fn retry_predicate_classifies_all_error_variants() {
    assert!(
        !should_retry(&ServerError::CoapParsing),
        "CoapParsing must be permanent (not retried)"
    );
    assert!(
        !should_retry(&ServerError::WrongPathOrMethod),
        "WrongPathOrMethod must be permanent (not retried)"
    );
    assert!(
        should_retry(&ServerError::Transient),
        "Transient must be retryable"
    );
    assert!(should_retry(&ServerError::CoalesceLeaderCancelled));
    assert!(should_retry(&ServerError::CoalesceRecvError));
}

/// All three `CoalesceError` variants map to the correct `ServerError` variant.
#[test]
fn coalesce_from_error_mapping() {
    assert!(matches!(
        ServerError::from(CoalesceError::Service(ServerError::CoapParsing)),
        ServerError::CoapParsing
    ));
    assert!(matches!(
        ServerError::from(CoalesceError::<ServerError>::LeaderCancelled),
        ServerError::CoalesceLeaderCancelled
    ));
    assert!(matches!(
        ServerError::from(CoalesceError::<ServerError>::RecvError),
        ServerError::CoalesceRecvError
    ));
}

/// `CacheError::Inner(e)` unwraps back to `e`.
#[test]
fn cache_from_error_mapping() {
    let e: ServerError = CacheError::Inner(ServerError::CoapParsing).into();
    assert!(matches!(e, ServerError::CoapParsing));
}

#[test]
fn errors_have_their_texts() {
    assert_eq!(ServerError::CoapParsing.to_string(), "CoAP parsing error");
    assert_eq!(
        ServerError::WrongPathOrMethod.to_string(),
        "wrong CoAP path or method"
    );
    assert_eq!(ServerError::Transient.to_string(), "transient error");
    assert_eq!(
        ServerError::CoalesceLeaderCancelled.to_string(),
        "coalesce leader request was cancelled"
    );
    assert_eq!(
        ServerError::CoalesceRecvError.to_string(),
        "coalesce failed to receive result from leader"
    );
}
