//! Error types of the library.
//!
//! All WebSocket failures are represented by [`WsError`]. For errors of token
//! extraction see [`crate::extractor::WsAuthError`].
use vstd::prelude::*;

verus! {

/// WebSocket error variants.
///
/// Each variant maps to a failure mode encountered during authentication,
/// connection management, or message handling.
#[derive(Debug, PartialEq, Eq)]
pub enum WsError {
    /// No authentication token was provided.
    AuthMissing,
    /// Provided authentication token is invalid or expired.
    AuthInvalid,
    /// Connection limit reached.
    TooManyConnections,
    /// Broadcast channel is full or lagged.
    BroadcastFull,
    /// Incoming message could not be parsed or is semantically invalid.
    InvalidMessage,
    /// A compressed payload was malformed: bad envelope flags, corrupt deflate
    /// stream, or invalid UTF-8 for a text frame.
    Compression,
    /// A payload exceeded the configured size limit.
    PayloadTooLarge,
    /// Redis transport failure, with its message.
    Redis(String),
    /// Connection has been closed.
    Closed,
}

impl Clone for WsError {
    fn clone(&self) -> (r: Self)
        ensures
            r == *self,
    {
        match self {
            WsError::AuthMissing => WsError::AuthMissing,
            WsError::AuthInvalid => WsError::AuthInvalid,
            WsError::TooManyConnections => WsError::TooManyConnections,
            WsError::BroadcastFull => WsError::BroadcastFull,
            WsError::InvalidMessage => WsError::InvalidMessage,
            WsError::Compression => WsError::Compression,
            WsError::PayloadTooLarge => WsError::PayloadTooLarge,
            WsError::Redis(cause) => WsError::Redis(cause.clone()),
            WsError::Closed => WsError::Closed,
        }
    }
}

impl WsError {
    /// The message that describes the error.
    pub open spec fn message(self) -> Seq<char> {
        match self {
            WsError::AuthMissing => "authentication token missing"@,
            WsError::AuthInvalid => "authentication token invalid"@,
            WsError::TooManyConnections => "too many connections"@,
            WsError::BroadcastFull => "broadcast channel full"@,
            WsError::InvalidMessage => "invalid message"@,
            WsError::Compression => "malformed compressed payload"@,
            WsError::PayloadTooLarge => "payload exceeds size limit"@,
            WsError::Redis(cause) => "redis error: "@ + cause@,
            WsError::Closed => "connection closed"@,
        }
    }

    /// The message that describes the error.
    pub fn to_string(&self) -> (r: String)
        ensures
            r@ == self.message(),
    {
        match self {
            WsError::AuthMissing => String::from("authentication token missing"),
            WsError::AuthInvalid => String::from("authentication token invalid"),
            WsError::TooManyConnections => String::from("too many connections"),
            WsError::BroadcastFull => String::from("broadcast channel full"),
            WsError::InvalidMessage => String::from("invalid message"),
            WsError::Compression => String::from("malformed compressed payload"),
            WsError::PayloadTooLarge => String::from("payload exceeds size limit"),
            WsError::Redis(cause) => {
                let mut out = String::from("redis error: ");
                out.append(cause.as_str());
                out
            },
            WsError::Closed => String::from("connection closed"),
        }
    }
}

/// What each error says, and that a copy of an error is that error.
pub proof fn law_error_messages(error: WsError, text: String, copy: WsError)
    requires
        call_ensures(WsError::to_string, (&error,), text),
        call_ensures(<WsError as Clone>::clone, (&error,), copy),
    ensures
        error is AuthMissing ==> text@ == "authentication token missing"@,
        error is AuthInvalid ==> text@ == "authentication token invalid"@,
        error is TooManyConnections ==> text@ == "too many connections"@,
        error is BroadcastFull ==> text@ == "broadcast channel full"@,
        error is InvalidMessage ==> text@ == "invalid message"@,
        error is Compression ==> text@ == "malformed compressed payload"@,
        error is PayloadTooLarge ==> text@ == "payload exceeds size limit"@,
        error is Closed ==> text@ == "connection closed"@,
        error matches WsError::Redis(cause) ==> text@ == "redis error: "@ + cause@,
        copy == error,
{
}

} // verus!
