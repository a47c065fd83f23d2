use lwm2m_server_rs::dedup::coap_dedup_key;
use lwm2m_server_rs::error::ServerError;
use lwm2m_server_rs::reliability::{
    coap_cache_layer, coap_cache_settings, coap_coalesce_layer, coap_retry_layer,
    coap_retry_settings, Eviction,
    COAP_EXCHANGE_LIFETIME, COAP_MAX_RETRANSMIT,
};
use lwm2m_server_rs::transport::TransportMessage;
use std::future::Future;
use std::sync::atomic::{AtomicUsize, Ordering};
use std::sync::Arc;
use std::time::Duration;
use tower::{Layer, Service, ServiceExt};
use tower_resilience_cache::{CacheLayer, EvictionPolicy};

type DedupKey = (String, u16);

/// Runs a future to its end, in a time that skips over sleeps.
fn run_paused<F: Future<Output = ()>>(future: F) {
    tokio::runtime::Builder::new_current_thread()
        .enable_all()
        .start_paused(true)
        .build()
        .unwrap()
        .block_on(future);
}

/// Runs a future to its end.
fn run<F: Future<Output = ()>>(future: F) {
    tokio::runtime::Builder::new_current_thread()
        .enable_all()
        .build()
        .unwrap()
        .block_on(future);
}

fn make_retry_msg() -> TransportMessage {
    TransportMessage::new("127.0.0.1:1234".to_string(), vec![0x40, 0x01, 0x00, 0x01])
}

/// A minimal CoAP CON header with the given peer address and message id.
fn make_coalesce_msg(peer: &str, mid: u16) -> TransportMessage {
    let bytes = vec![0x40, 0x01, (mid >> 8) as u8, (mid & 0xFF) as u8];
    TransportMessage::new(peer.to_string(), bytes)
}

#[test]
fn retry_settings_follow_the_transmission_parameters() {
    let settings = coap_retry_settings();
    assert_eq!(settings.max_attempts, 5);
    assert_eq!(settings.base_interval, 2);
    assert_eq!(settings.jitter, 250);
}

#[test]
fn cache_settings_follow_the_exchange_lifetime() {
    assert_eq!(COAP_EXCHANGE_LIFETIME, 247);
    let settings = coap_cache_settings();
    assert_eq!(settings.max_size, 1024);
    assert_eq!(settings.ttl, 247);
    assert_eq!(settings.eviction, Eviction::FirstIn);
}

/// `CoapParsing` is a permanent error: it must **not** be retried.
#[test]
fn retry_coap_parsing_error_is_not_retried() {
    run_paused(async {
        let call_count = Arc::new(AtomicUsize::new(0));
        let cc = Arc::clone(&call_count);

        let inner = tower::service_fn(move |msg: TransportMessage| {
            let cc = Arc::clone(&cc);
            async move {
                let attempt = cc.fetch_add(1, Ordering::SeqCst);
                if attempt < usize::MAX {
                    Err::<TransportMessage, ServerError>(ServerError::CoapParsing)
                } else {
                    Ok(msg)
                }
            }
        });

        let mut svc = coap_retry_layer().layer(inner);
        let result = svc.ready().await.unwrap().call(make_retry_msg()).await;

        assert!(matches!(result, Err(ServerError::CoapParsing)), "the error must come through");
        assert_eq!(
            call_count.load(Ordering::SeqCst),
            1,
            "CoapParsing must short-circuit without any retries"
        );
    });
}

/// `WrongPathOrMethod` is a permanent error: it must **not** be retried.
#[test]
fn retry_wrong_path_or_method_is_not_retried() {
    run_paused(async {
        let call_count = Arc::new(AtomicUsize::new(0));
        let cc = Arc::clone(&call_count);

        let inner = tower::service_fn(move |msg: TransportMessage| {
            let cc = Arc::clone(&cc);
            async move {
                let attempt = cc.fetch_add(1, Ordering::SeqCst);
                if attempt < usize::MAX {
                    Err::<TransportMessage, ServerError>(ServerError::WrongPathOrMethod)
                } else {
                    Ok(msg)
                }
            }
        });

        let mut svc = coap_retry_layer().layer(inner);
        let result = svc.ready().await.unwrap().call(make_retry_msg()).await;

        assert!(matches!(result, Err(ServerError::WrongPathOrMethod)), "the error must come through");
        assert_eq!(
            call_count.load(Ordering::SeqCst),
            1,
            "WrongPathOrMethod must short-circuit without any retries"
        );
    });
}

/// A transient error is retried until the service succeeds.
#[test]
fn retry_transient_error_retries_until_success() {
    run_paused(async {
        let call_count = Arc::new(AtomicUsize::new(0));
        let cc = Arc::clone(&call_count);

        let inner = tower::service_fn(move |msg: TransportMessage| {
            let cc = Arc::clone(&cc);
            async move {
                let attempt = cc.fetch_add(1, Ordering::SeqCst);
                if attempt < 2 {
                    Err::<TransportMessage, ServerError>(ServerError::Transient)
                } else {
                    Ok(msg)
                }
            }
        });

        let mut svc = coap_retry_layer().layer(inner);
        let result = svc.ready().await.unwrap().call(make_retry_msg()).await;

        assert!(result.is_ok(), "should succeed after retries");
        assert_eq!(
            call_count.load(Ordering::SeqCst),
            3,
            "should attempt exactly 3 times (2 transient failures + 1 success)"
        );
    });
}

/// A persistent transient error exhausts all attempts and then comes through.
#[test]
fn retry_transient_error_exhausts_all_attempts() {
    run_paused(async {
        let call_count = Arc::new(AtomicUsize::new(0));
        let cc = Arc::clone(&call_count);

        let inner = tower::service_fn(move |msg: TransportMessage| {
            let cc = Arc::clone(&cc);
            async move {
                let attempt = cc.fetch_add(1, Ordering::SeqCst);
                if attempt < usize::MAX {
                    Err::<TransportMessage, ServerError>(ServerError::Transient)
                } else {
                    Ok(msg)
                }
            }
        });

        let mut svc = coap_retry_layer().layer(inner);
        let result = svc.ready().await.unwrap().call(make_retry_msg()).await;

        assert!(matches!(result, Err(ServerError::Transient)), "exhausted retries must propagate the last error");
        assert_eq!(
            call_count.load(Ordering::SeqCst),
            COAP_MAX_RETRANSMIT + 1,
            "must attempt exactly COAP_MAX_RETRANSMIT + 1 = 5 times per RFC 7252 §4.8"
        );
    });
}

/// A request that succeeds immediately is never retried.
#[test]
fn retry_success_on_first_attempt_does_not_retry() {
    run_paused(async {
        let call_count = Arc::new(AtomicUsize::new(0));
        let cc = Arc::clone(&call_count);

        let inner = tower::service_fn(move |msg: TransportMessage| {
            let cc = Arc::clone(&cc);
            async move {
                let attempt = cc.fetch_add(1, Ordering::SeqCst);
                if attempt < 0 {
                    Err::<TransportMessage, ServerError>(ServerError::Transient)
                } else {
                    Ok(msg)
                }
            }
        });

        let mut svc = coap_retry_layer().layer(inner);
        let result = svc.ready().await.unwrap().call(make_retry_msg()).await;

        assert!(result.is_ok(), "must succeed");
        assert_eq!(
            call_count.load(Ordering::SeqCst),
            1,
            "a first-attempt success must not trigger any retry"
        );
    });
}

/// The service succeeds on the very last allowed attempt.
#[test]
fn retry_transient_error_succeeds_on_final_attempt() {
    run_paused(async {
        let call_count = Arc::new(AtomicUsize::new(0));
        let cc = Arc::clone(&call_count);

        let inner = tower::service_fn(move |msg: TransportMessage| {
            let cc = Arc::clone(&cc);
            async move {
                let attempt = cc.fetch_add(1, Ordering::SeqCst);
                if attempt < COAP_MAX_RETRANSMIT {
                    Err::<TransportMessage, ServerError>(ServerError::Transient)
                } else {
                    Ok(msg)
                }
            }
        });

        let mut svc = coap_retry_layer().layer(inner);
        let result = svc.ready().await.unwrap().call(make_retry_msg()).await;

        assert!(result.is_ok(), "must succeed when service recovers on the last attempt");
        assert_eq!(
            call_count.load(Ordering::SeqCst),
            COAP_MAX_RETRANSMIT + 1,
            "must use every attempt"
        );
    });
}

/// The first retry comes within a quarter of two seconds, and each interval is
/// about twice the one before: 2 + 4 + 8 + 16 seconds in all.
#[test]
fn retries_are_paced() {
    run_paused(async {
        let inner = tower::service_fn(move |_msg: TransportMessage| async move {
            Err::<TransportMessage, ServerError>(ServerError::Transient)
        });
        let mut svc = coap_retry_layer().layer(inner);
        let start = tokio::time::Instant::now();
        let _ = svc.ready().await.unwrap().call(make_retry_msg()).await;
        let elapsed = start.elapsed();
        assert!(elapsed >= Duration::from_millis(22_500));
        assert!(elapsed <= Duration::from_millis(37_600));
    });
}

/// A unique request reaches the inner service exactly once.
#[test]
fn coalesce_unique_request_passes_through() {
    run(async {
        let call_count = Arc::new(AtomicUsize::new(0));
        let cc = Arc::clone(&call_count);

        let inner = tower::service_fn(move |msg: TransportMessage| {
            let cc = Arc::clone(&cc);
            async move {
                cc.fetch_add(1, Ordering::SeqCst);
                Ok::<TransportMessage, ServerError>(msg)
            }
        });

        let mut svc = coap_coalesce_layer().layer.layer(inner);
        let result = svc
            .ready()
            .await
            .unwrap()
            .call(make_coalesce_msg("10.0.0.1:1234", 0x0042))
            .await;

        assert!(result.is_ok());
        assert_eq!(call_count.load(Ordering::SeqCst), 1);
    });
}

/// Requests with distinct keys each invoke the inner service.
#[test]
fn coalesce_distinct_keys_not_coalesced() {
    run(async {
        let call_count = Arc::new(AtomicUsize::new(0));
        let cc = Arc::clone(&call_count);

        let inner = tower::service_fn(move |msg: TransportMessage| {
            let cc = Arc::clone(&cc);
            async move {
                cc.fetch_add(1, Ordering::SeqCst);
                Ok::<TransportMessage, ServerError>(msg)
            }
        });

        let mut svc = coap_coalesce_layer().layer.layer(inner);

        // Different message ids, same peer
        svc.ready()
            .await
            .unwrap()
            .call(make_coalesce_msg("10.0.0.1:1234", 0x0001))
            .await
            .unwrap();
        svc.ready()
            .await
            .unwrap()
            .call(make_coalesce_msg("10.0.0.1:1234", 0x0002))
            .await
            .unwrap();
        // Same message id, different peers
        svc.ready()
            .await
            .unwrap()
            .call(make_coalesce_msg("10.0.0.2:1234", 0x0001))
            .await
            .unwrap();

        assert_eq!(
            call_count.load(Ordering::SeqCst),
            3,
            "each distinct (peer, MID) pair must invoke the inner service once"
        );
    });
}

/// Two concurrent requests with one key are coalesced: the inner service is
/// invoked once and both callers receive its result.
#[test]
fn coalesce_concurrent_duplicate_invokes_service_once() {
    run(async {
        let call_count = Arc::new(AtomicUsize::new(0));
        let cc = Arc::clone(&call_count);
        let notify = Arc::new(tokio::sync::Notify::new());
        let n = Arc::clone(&notify);

        // The inner service blocks until signalled, so that the second caller
        // can subscribe as a waiter.
        let inner = tower::service_fn(move |msg: TransportMessage| {
            let cc = Arc::clone(&cc);
            let n = Arc::clone(&n);
            async move {
                cc.fetch_add(1, Ordering::SeqCst);
                n.notified().await;
                Ok::<TransportMessage, ServerError>(msg)
            }
        });

        let svc = coap_coalesce_layer().layer.layer(inner);
        let mut svc1 = svc.clone();
        let mut svc2 = svc.clone();

        let h1 = tokio::spawn(async move {
            svc1.ready()
                .await
                .unwrap()
                .call(make_coalesce_msg("10.0.0.1:1234", 0xBEEF))
                .await
        });
        tokio::task::yield_now().await;
        let h2 = tokio::spawn(async move {
            svc2.ready()
                .await
                .unwrap()
                .call(make_coalesce_msg("10.0.0.1:1234", 0xBEEF))
                .await
        });
        tokio::task::yield_now().await;

        notify.notify_one();

        assert!(h1.await.unwrap().is_ok(), "leader must succeed");
        assert!(
            h2.await.unwrap().is_ok(),
            "waiter must receive the coalesced result"
        );
        assert_eq!(
            call_count.load(Ordering::SeqCst),
            1,
            "inner service must be invoked only once for both duplicate requests"
        );
    });
}

/// The first call for a key reaches the inner service; a second one is answered
/// from what is kept (RFC 7252 §4.5).
#[test]
fn cache_hit_returns_cached_response_without_calling_service() {
    run(async {
        let call_count = Arc::new(AtomicUsize::new(0));
        let cc = Arc::clone(&call_count);

        let inner = tower::service_fn(move |msg: TransportMessage| {
            let cc = Arc::clone(&cc);
            async move {
                cc.fetch_add(1, Ordering::SeqCst);
                Ok::<TransportMessage, ServerError>(msg)
            }
        });

        let mut svc = coap_cache_layer().layer(inner);
        let key_msg = make_coalesce_msg("10.0.0.1:5683", 0x0001);

        svc.ready()
            .await
            .unwrap()
            .call(key_msg.clone())
            .await
            .unwrap();
        assert_eq!(call_count.load(Ordering::SeqCst), 1);

        svc.ready().await.unwrap().call(key_msg).await.unwrap();
        assert_eq!(
            call_count.load(Ordering::SeqCst),
            1,
            "duplicate (peer, MID) must be served from cache"
        );
    });
}

/// Requests with distinct keys each invoke the inner service.
#[test]
fn cache_distinct_keys_each_invoke_service() {
    run(async {
        let call_count = Arc::new(AtomicUsize::new(0));
        let cc = Arc::clone(&call_count);

        let inner = tower::service_fn(move |msg: TransportMessage| {
            let cc = Arc::clone(&cc);
            async move {
                cc.fetch_add(1, Ordering::SeqCst);
                Ok::<TransportMessage, ServerError>(msg)
            }
        });

        let mut svc = coap_cache_layer().layer(inner);

        svc.ready()
            .await
            .unwrap()
            .call(make_coalesce_msg("10.0.0.1:5683", 0x0001))
            .await
            .unwrap();
        svc.ready()
            .await
            .unwrap()
            .call(make_coalesce_msg("10.0.0.1:5683", 0x0002))
            .await
            .unwrap();
        svc.ready()
            .await
            .unwrap()
            .call(make_coalesce_msg("10.0.0.2:5683", 0x0001))
            .await
            .unwrap();

        assert_eq!(
            call_count.load(Ordering::SeqCst),
            3,
            "each distinct (peer, MID) pair must invoke the inner service once"
        );
    });
}

/// Errors are not kept: a later request with the same key reaches the service.
#[test]
fn cache_errors_are_not_cached() {
    run(async {
        let call_count = Arc::new(AtomicUsize::new(0));
        let cc = Arc::clone(&call_count);

        let inner = tower::service_fn(move |_: TransportMessage| {
            let cc = Arc::clone(&cc);
            async move {
                cc.fetch_add(1, Ordering::SeqCst);
                Err::<TransportMessage, ServerError>(ServerError::CoapParsing)
            }
        });

        let mut svc = coap_cache_layer().layer(inner);
        let key_msg = make_coalesce_msg("10.0.0.1:5683", 0xABCD);

        let _ = svc.ready().await.unwrap().call(key_msg.clone()).await;
        let _ = svc.ready().await.unwrap().call(key_msg).await;

        assert_eq!(
            call_count.load(Ordering::SeqCst),
            2,
            "failed responses must not be cached; each attempt must reach the inner service"
        );
    });
}

/// After the time to live, the inner service is called again for the same key.
#[test]
fn cache_entry_expires_after_ttl() {
    run(async {
        let call_count = Arc::new(AtomicUsize::new(0));
        let cc = Arc::clone(&call_count);

        let inner = tower::service_fn(move |msg: TransportMessage| {
            let cc = Arc::clone(&cc);
            async move {
                cc.fetch_add(1, Ordering::SeqCst);
                Ok::<TransportMessage, ServerError>(msg)
            }
        });

        // 50 ms — deliberately short for testing only.
        let short_ttl_layer = CacheLayer::<TransportMessage, DedupKey>::builder()
            .max_size(16)
            .ttl(Duration::from_millis(50))
            .eviction_policy(EvictionPolicy::Fifo)
            .key_extractor(coap_dedup_key)
            .build()
            .unwrap();

        let mut svc = short_ttl_layer.layer(inner);
        let key_msg = make_coalesce_msg("10.0.0.1:5683", 0xFACE);

        svc.ready()
            .await
            .unwrap()
            .call(key_msg.clone())
            .await
            .unwrap();
        assert_eq!(call_count.load(Ordering::SeqCst), 1);

        svc.ready()
            .await
            .unwrap()
            .call(key_msg.clone())
            .await
            .unwrap();
        assert_eq!(call_count.load(Ordering::SeqCst), 1, "should hit cache");

        tokio::time::sleep(Duration::from_millis(100)).await;

        svc.ready().await.unwrap().call(key_msg).await.unwrap();
        assert_eq!(
            call_count.load(Ordering::SeqCst),
            2,
            "expired cache entry must cause a cache miss"
        );
    });
}

/// The cache keeps 1024 answers, and the oldest leaves first, however often it
/// was asked for.
#[test]
fn cache_evicts_the_oldest() {
    run(async {
        let call_count = Arc::new(AtomicUsize::new(0));
        let cc = Arc::clone(&call_count);

        let inner = tower::service_fn(move |msg: TransportMessage| {
            let cc = Arc::clone(&cc);
            async move {
                cc.fetch_add(1, Ordering::SeqCst);
                Ok::<TransportMessage, ServerError>(msg)
            }
        });

        let mut svc = coap_cache_layer().layer(inner);
        for mid in 0..1024u16 {
            let msg = make_coalesce_msg("10.0.0.1:5683", mid);
            svc.ready().await.unwrap().call(msg).await.unwrap();
        }
        let oldest = make_coalesce_msg("10.0.0.1:5683", 0);
        svc.ready().await.unwrap().call(oldest.clone()).await.unwrap();
        assert_eq!(call_count.load(Ordering::SeqCst), 1024);

        let next = make_coalesce_msg("10.0.0.1:5683", 2000);
        svc.ready().await.unwrap().call(next).await.unwrap();
        let second = make_coalesce_msg("10.0.0.1:5683", 1);
        svc.ready().await.unwrap().call(second).await.unwrap();
        assert_eq!(call_count.load(Ordering::SeqCst), 1025);
        svc.ready().await.unwrap().call(oldest).await.unwrap();
        assert_eq!(call_count.load(Ordering::SeqCst), 1026);
    });
}
