use tinyproxy::error::ProxyError;

const ALL: [ProxyError; 9] = [
    ProxyError::ClientRead,
    ProxyError::HeadTooLarge,
    ProxyError::MissingRequestLine,
    ProxyError::MissingMethod,
    ProxyError::MissingTarget,
    ProxyError::MalformedTarget,
    ProxyError::NoHost,
    ProxyError::UpstreamConnect,
    ProxyError::HandshakeWrite,
];

#[test]
fn overflow_is_reported_as_a_head_too_large() {
    assert_eq!(ProxyError::HeadTooLarge.message(), "request head too large for capture buffer");
}

#[test]
fn every_failure_has_a_message_of_its_own() {
    for (i, a) in ALL.iter().enumerate() {
        assert!(!a.message().is_empty());
        for b in &ALL[i + 1..] {
            assert_ne!(a.message(), b.message());
            assert_ne!(a, b);
        }
    }
}
