//! Transmission parameters of RFC 7252 §4.8 and the layers that are built from them.
//!
//! LwM2M 1.1 §6.8.1 (UDP binding) leaves all of them as RFC 7252 has them.
use crate::dedup::coap_dedup_key;
use crate::error::ServerError;
use crate::transport::TransportMessage;
use std::time::Duration;
use tower_resilience_cache::{CacheLayer, EvictionPolicy};
use tower_resilience_coalesce::CoalesceLayer;
use tower_resilience_retry::{ExponentialRandomBackoff, RetryLayer};
use vstd::prelude::*;

verus! {

/// RFC 7252 §4.8: base retransmission timeout, in seconds.
pub const COAP_ACK_TIMEOUT: u64 = 2;

/// Jitter of each retry interval, in thousandths of the interval, to either side.
///
/// RFC 7252 §4.2 spreads the first timeout over 2 s to 3 s. A quarter to either side of each interval
/// gives 1.5 s to 2.5 s on the first retry, which desynchronises senders as well.
pub const COAP_BACKOFF_JITTER: u64 = 250;

/// RFC 7252 §4.8: maximum retransmission count after the initial attempt.
pub const COAP_MAX_RETRANSMIT: usize = 4;

/// RFC 7252 §4.8: assumed maximum one-way network latency, in seconds.
pub const COAP_MAX_LATENCY: u64 = 100;

/// RFC 7252 §4.8.2: how long a confirmable exchange can remain in flight, in seconds.
///
/// `EXCHANGE_LIFETIME = MAX_TRANSMIT_SPAN + 2 × MAX_LATENCY + PROCESSING_DELAY`
pub const COAP_EXCHANGE_LIFETIME: u64 = 45 + 2 * COAP_MAX_LATENCY + 2;

/// How many responses are kept for duplicates.
pub const COAP_CACHE_SIZE: usize = 1024;

/// Only errors that may go away are retried: the same bytes always fail to parse, and always address
/// the same path with the same method.
pub open spec fn retryable(error: ServerError) -> bool {
    error != ServerError::CoapParsing && error != ServerError::WrongPathOrMethod
}

/// Whether a request that failed with the error is tried again.
pub fn should_retry(error: &ServerError) -> (r: bool)
    ensures
        r == retryable(*error),
{
    !matches!(error, ServerError::CoapParsing | ServerError::WrongPathOrMethod)
}

/// How a request is retried.
#[derive(Debug, Clone, Copy, PartialEq, Eq, Structural)]
pub struct RetrySettings {
    /// How often the request is tried in all.
    pub max_attempts: usize,
    /// The interval before the first retry, in seconds. It doubles with each retry.
    pub base_interval: u64,
    /// Jitter of each interval, in thousandths, to either side.
    pub jitter: u64,
}

/// Which entry leaves a full cache.
#[derive(Debug, Clone, Copy, PartialEq, Eq, Structural)]
pub enum Eviction {
    LeastRecentlyUsed,
    LeastFrequentlyUsed,
    FirstIn,
}

/// How responses are kept for duplicates.
#[derive(Debug, Clone, Copy, PartialEq, Eq, Structural)]
pub struct CacheSettings {
    pub max_size: usize,
    /// How long a response is kept, in seconds.
    pub ttl: u64,
    pub eviction: Eviction,
}

/// `tower_resilience_retry::RetryLayer`, which is passed on as it was built.
#[verifier::external_type_specification]
#[verifier::external_body]
#[verifier::reject_recursive_types(Req)]
#[verifier::reject_recursive_types(Res)]
#[verifier::reject_recursive_types(E)]
pub struct ExRetryLayer<Req, Res, E>(RetryLayer<Req, Res, E>);

/// `tower_resilience_cache::CacheLayer`, which is passed on as it was built.
#[verifier::external_type_specification]
#[verifier::external_body]
#[verifier::reject_recursive_types(Req)]
#[verifier::reject_recursive_types(K)]
pub struct ExCacheLayer<Req, K>(CacheLayer<Req, K>);

/// The layer that `tower_resilience_retry` builds for a name and settings, with [`should_retry`] as
/// its predicate.
pub uninterp spec fn retry_layer(
    name: Seq<char>,
    settings: RetrySettings,
) -> RetryLayer<TransportMessage, TransportMessage, ServerError>;

/// The layer that `tower_resilience_cache` builds for a name and settings, with [`coap_dedup_key`] as
/// its key.
pub uninterp spec fn cache_layer(
    name: Seq<char>,
    settings: CacheSettings,
) -> CacheLayer<TransportMessage, (String, u16)>;

/// A `tower_resilience_coalesce::CoalesceLayer` by [`coap_dedup_key`], which is passed on as it was built.
/// Its type names a function pointer, so the layer is out of sight here.
#[verifier::external_body]
pub struct CoalesceDedup {
    pub layer: CoalesceLayer<
        (String, u16),
        TransportMessage,
        fn(&TransportMessage) -> (String, u16),
    >,
}

/// The layer that `tower_resilience_coalesce` builds for a name, with [`coap_dedup_key`] as its key.
pub uninterp spec fn coalesce_layer(name: Seq<char>) -> CoalesceDedup;

/// Builds a layer with `tower_resilience_retry::RetryLayer::builder`, which keeps what it is given:
/// the name, the number of attempts, an `ExponentialRandomBackoff` of the base interval and the
/// jitter, and [`should_retry`] as the test on errors.
#[verifier::external_body]
fn build_retry_layer(name: &str, settings: RetrySettings) -> (r: RetryLayer<
    TransportMessage,
    TransportMessage,
    ServerError,
>)
    requires
        settings.jitter <= 1000,
    ensures
        r == retry_layer(name@, settings),
{
    let base = Duration::from_secs(settings.base_interval);
    let jitter = Duration::from_millis(settings.jitter).as_secs_f64();
    RetryLayer::builder()
        .name(name)
        .max_attempts(settings.max_attempts)
        .backoff(ExponentialRandomBackoff::new(base, jitter).unwrap())
        .retry_on(should_retry)
        .build()
}

/// Builds a layer with `tower_resilience_cache::CacheLayer::builder`, which keeps what it is given:
/// the name, the size, the time to live, the eviction policy, and [`coap_dedup_key`] as the key of a
/// request. It fails only without a key.
#[verifier::external_body]
fn build_cache_layer(name: &str, settings: CacheSettings) -> (r: CacheLayer<
    TransportMessage,
    (String, u16),
>)
    ensures
        r == cache_layer(name@, settings),
{
    CacheLayer::builder()
        .name(name)
        .max_size(settings.max_size)
        .ttl(Duration::from_secs(settings.ttl))
        .eviction_policy(match settings.eviction {
            Eviction::LeastRecentlyUsed => EvictionPolicy::Lru,
            Eviction::LeastFrequentlyUsed => EvictionPolicy::Lfu,
            Eviction::FirstIn => EvictionPolicy::Fifo,
        })
        .key_extractor(coap_dedup_key)
        .build()
        .unwrap()
}

/// Builds a layer with `tower_resilience_coalesce::CoalesceLayer::builder`, which keeps what it is given:
/// the name, and [`coap_dedup_key`] as the key of a request.
#[verifier::external_body]
fn build_coalesce_layer(name: &str) -> (r: CoalesceDedup)
    ensures
        r == coalesce_layer(name@),
{
    let key: fn(&TransportMessage) -> (String, u16) = coap_dedup_key;
    CoalesceDedup { layer: CoalesceLayer::builder(key).name(name).build() }
}

/// RFC 7252 §4.2 pacing: five attempts, the first retry after about two seconds.
pub fn coap_retry_settings() -> (r: RetrySettings)
    ensures
        r == (RetrySettings { max_attempts: 5, base_interval: 2, jitter: 250 }),
{
    RetrySettings {
        max_attempts: COAP_MAX_RETRANSMIT + 1,
        base_interval: COAP_ACK_TIMEOUT,
        jitter: COAP_BACKOFF_JITTER,
    }
}

/// RFC 7252 §4.5: responses are kept for 247 seconds, and the oldest leaves first.
pub fn coap_cache_settings() -> (r: CacheSettings)
    ensures
        r == (CacheSettings { max_size: 1024, ttl: 247, eviction: Eviction::FirstIn }),
{
    CacheSettings {
        max_size: COAP_CACHE_SIZE,
        ttl: COAP_EXCHANGE_LIFETIME,
        eviction: Eviction::FirstIn,
    }
}

/// The layer that retries what may go away.
pub fn coap_retry_layer() -> (r: RetryLayer<TransportMessage, TransportMessage, ServerError>)
    ensures
        r == retry_layer(
            "coap-request"@,
            RetrySettings { max_attempts: 5, base_interval: 2, jitter: 250 },
        ),
{
    build_retry_layer("coap-request", coap_retry_settings())
}

/// The layer that serves duplicates that are in flight together once.
pub fn coap_coalesce_layer() -> (r: CoalesceDedup)
    ensures
        r == coalesce_layer("coap-coalesce"@),
{
    build_coalesce_layer("coap-coalesce")
}

/// The layer that answers duplicates from what it keeps (RFC 7252 §4.5).
pub fn coap_cache_layer() -> (r: CacheLayer<TransportMessage, (String, u16)>)
    ensures
        r == cache_layer(
            "coap-dedup-cache"@,
            CacheSettings { max_size: 1024, ttl: 247, eviction: Eviction::FirstIn },
        ),
{
    build_cache_layer("coap-dedup-cache", coap_cache_settings())
}

/// A failure that may go away, and the two ways in which a duplicate misses the result that it waited for,
/// are retried; a message that cannot be parsed or routed is not.
pub proof fn law_only_passing_failures_are_retried(error: ServerError)
    ensures
        retryable(error) <==> error == ServerError::Transient || error
            == ServerError::CoalesceLeaderCancelled || error == ServerError::CoalesceRecvError,
{
}

/// The exchange lifetime is what RFC 7252 §4.8.2 derives from the other parameters: the time that all
/// transmissions take at most (the first timeout, one and a half times the base, doubled with each
/// retransmission), twice the latency, and the time for processing, which is the base timeout.
pub proof fn law_exchange_lifetime_is_derived()
    ensures
        COAP_MAX_RETRANSMIT == 4,
        2 * COAP_EXCHANGE_LIFETIME == 3 * COAP_ACK_TIMEOUT * (16 - 1) + 4 * COAP_MAX_LATENCY + 2
            * COAP_ACK_TIMEOUT,
        COAP_ACK_TIMEOUT == 2,
        COAP_MAX_LATENCY == 100,
{
}

} // verus!
