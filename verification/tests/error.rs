use ws_kit::error::WsError;

#[test]
fn display_messages() {
    assert_eq!(
        WsError::AuthMissing.to_string(),
        "authentication token missing"
    );
    assert_eq!(
        WsError::AuthInvalid.to_string(),
        "authentication token invalid"
    );
    assert_eq!(
        WsError::TooManyConnections.to_string(),
        "too many connections"
    );
    assert_eq!(WsError::BroadcastFull.to_string(), "broadcast channel full");
    assert_eq!(WsError::InvalidMessage.to_string(), "invalid message");
    assert_eq!(
        WsError::Compression.to_string(),
        "malformed compressed payload"
    );
    assert_eq!(
        WsError::PayloadTooLarge.to_string(),
        "payload exceeds size limit"
    );
    assert_eq!(
        WsError::Redis("down".to_string()).to_string(),
        "redis error: down"
    );
    assert_eq!(WsError::Closed.to_string(), "connection closed");
}

#[test]
fn clone_eq() {
    let e = WsError::AuthMissing;
    assert_eq!(e.clone(), WsError::AuthMissing);
    assert_ne!(WsError::AuthMissing, WsError::Closed);
}

#[test]
fn ws_error_display() {
    assert_eq!(
        WsError::AuthMissing.to_string(),
        "authentication token missing"
    );
    assert_eq!(WsError::Closed.to_string(), "connection closed");
}

#[test]
fn clones_are_equal() {
    for e in [
        WsError::AuthMissing,
        WsError::AuthInvalid,
        WsError::TooManyConnections,
        WsError::BroadcastFull,
        WsError::InvalidMessage,
        WsError::Compression,
        WsError::PayloadTooLarge,
        WsError::Redis("down".to_string()),
        WsError::Closed,
    ] {
        assert_eq!(e.clone(), e);
    }
}
