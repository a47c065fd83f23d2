//! What can go wrong while a message is served.
use tower_resilience_cache::CacheError;
use tower_resilience_coalesce::CoalesceError;
use vstd::prelude::*;

verus! {

/// Errors that can occur during server operations.
#[derive(Debug, Clone, Copy, PartialEq, Eq, Structural)]
pub enum ServerError {
    /// The incoming bytes could not be parsed as a valid CoAP packet.
    ///
    /// This is a **permanent** error: re-processing the same bytes will always fail, so it is never
    /// retried.
    CoapParsing,
    /// The request addressed a path or used a method not handled by this server.
    ///
    /// This is a **permanent** error for the same reason as [`CoapParsing`][Self::CoapParsing].
    WrongPathOrMethod,
    /// A transient failure that may resolve on a subsequent attempt, such as a backend that is
    /// unavailable for the moment.
    Transient,
    /// The request that a duplicate waited for was cancelled.
    CoalesceLeaderCancelled,
    /// The request that a duplicate waited for never handed its result over.
    CoalesceRecvError,
}

/// The text of an error.
pub open spec fn error_text(error: ServerError) -> Seq<char> {
    match error {
        ServerError::CoapParsing => "CoAP parsing error"@,
        ServerError::WrongPathOrMethod => "wrong CoAP path or method"@,
        ServerError::Transient => "transient error"@,
        ServerError::CoalesceLeaderCancelled => "coalesce leader request was cancelled"@,
        ServerError::CoalesceRecvError => "coalesce failed to receive result from leader"@,
    }
}

impl ServerError {
    /// The text of the error.
    pub fn to_string(&self) -> (r: String)
        ensures
            r@ == error_text(*self),
    {
        match self {
            ServerError::CoapParsing => "CoAP parsing error".to_owned(),
            ServerError::WrongPathOrMethod => "wrong CoAP path or method".to_owned(),
            ServerError::Transient => "transient error".to_owned(),
            ServerError::CoalesceLeaderCancelled => {
                "coalesce leader request was cancelled".to_owned()
            },
            ServerError::CoalesceRecvError => {
                "coalesce failed to receive result from leader".to_owned()
            },
        }
    }
}

/// `tower_resilience_coalesce::CoalesceError`: what a coalesced call fails with.
#[verifier::external_type_specification]
#[verifier::reject_recursive_types(E)]
pub struct ExCoalesceError<E>(CoalesceError<E>);

/// `tower_resilience_cache::CacheError`: what a cached call fails with.
#[verifier::external_type_specification]
#[verifier::reject_recursive_types(E)]
pub struct ExCacheError<E>(CacheError<E>);

impl From<CoalesceError<ServerError>> for ServerError {
    fn from(e: CoalesceError<ServerError>) -> (r: ServerError) {
        match e {
            CoalesceError::Service(inner) => inner,
            CoalesceError::LeaderCancelled => ServerError::CoalesceLeaderCancelled,
            CoalesceError::RecvError => ServerError::CoalesceRecvError,
        }
    }
}

impl vstd::std_specs::convert::FromSpecImpl<CoalesceError<ServerError>> for ServerError {
    open spec fn obeys_from_spec() -> bool {
        true
    }

    open spec fn from_spec(e: CoalesceError<ServerError>) -> ServerError {
        match e {
            CoalesceError::Service(inner) => inner,
            CoalesceError::LeaderCancelled => ServerError::CoalesceLeaderCancelled,
            CoalesceError::RecvError => ServerError::CoalesceRecvError,
        }
    }
}

impl From<CacheError<ServerError>> for ServerError {
    fn from(e: CacheError<ServerError>) -> (r: ServerError) {
        match e {
            CacheError::Inner(inner) => inner,
        }
    }
}

impl vstd::std_specs::convert::FromSpecImpl<CacheError<ServerError>> for ServerError {
    open spec fn obeys_from_spec() -> bool {
        true
    }

    open spec fn from_spec(e: CacheError<ServerError>) -> ServerError {
        match e {
            CacheError::Inner(inner) => inner,
        }
    }
}

/// Each error has its own text.
pub proof fn law_errors_have_their_texts(error: ServerError)
    ensures
        error == ServerError::CoapParsing ==> error_text(error) == "CoAP parsing error"@,
        error == ServerError::WrongPathOrMethod ==> error_text(error)
            == "wrong CoAP path or method"@,
        error == ServerError::Transient ==> error_text(error) == "transient error"@,
        error == ServerError::CoalesceLeaderCancelled ==> error_text(error)
            == "coalesce leader request was cancelled"@,
        error == ServerError::CoalesceRecvError ==> error_text(error)
            == "coalesce failed to receive result from leader"@,
{
}

/// What a layer passes on of the service behind it is the service's own error; what fails in the layer
/// itself has an error for each of the two ways.
pub proof fn law_layers_pass_errors_on(inner: ServerError, e: CoalesceError<ServerError>)
    ensures
        <ServerError as vstd::std_specs::convert::FromSpec<CacheError<ServerError>>>::from_spec(CacheError::Inner(inner))
            == inner,
        <ServerError as vstd::std_specs::convert::FromSpec<CoalesceError<ServerError>>>::from_spec(
            CoalesceError::Service(inner),
        ) == inner,
        e is LeaderCancelled ==> <ServerError as vstd::std_specs::convert::FromSpec<CoalesceError<ServerError>>>::from_spec(e)
            == ServerError::CoalesceLeaderCancelled,
        e is RecvError ==> <ServerError as vstd::std_specs::convert::FromSpec<CoalesceError<ServerError>>>::from_spec(e)
            == ServerError::CoalesceRecvError,
{
}

} // verus!
