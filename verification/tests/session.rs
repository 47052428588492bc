use tinyproxy::error::ProxyError;
use tinyproxy::session::{tunnel_reply_bytes, Action, Event, Session, Stage};

const REPLY: &[u8] = b"HTTP/1.1 200 Connection established\r\n\r\n";

fn connect(address: &str) -> Action {
    Action::Connect { address: address.to_string() }
}

fn close(failure: Option<ProxyError>) -> Action {
    Action::Close { failure }
}

#[test]
fn tunnel_reply_is_the_fixed_line() {
    assert_eq!(tunnel_reply_bytes(), REPLY);
}

#[test]
fn new_session_asks_for_a_read() {
    let session = Session::new();
    assert_eq!(session.stage(), Stage::Capturing);
    assert_eq!(session.pending(), Action::Read { max: 1024 });
    assert_eq!(session.failure(), None);
    assert_eq!(session.request_line(), None);
}

#[test]
fn connect_request_sets_up_a_tunnel() {
    let mut session = Session::new();
    let action = session.step(Event::Read(b"CONNECT example.com:443 HTTP/1.1\r\n\r\n"));
    assert_eq!(action, connect("example.com:443"));
    assert_eq!(session.stage(), Stage::Connecting);
    assert_eq!(session.request_line(), Some("CONNECT example.com:443 HTTP/1.1"));

    let action = session.step(Event::Connected);
    assert_eq!(action, Action::WriteClient { bytes: REPLY.to_vec() });
    assert_eq!(session.stage(), Stage::Handshaking);

    let action = session.step(Event::Written);
    assert_eq!(action, Action::Relay);
    assert_eq!(session.stage(), Stage::Relaying);

    let action = session.step(Event::RelayEnded);
    assert_eq!(action, close(None));
    assert_eq!(session.stage(), Stage::Closed);
    assert_eq!(session.failure(), None);
}

#[test]
fn plain_request_is_replayed_to_the_upstream() {
    let head = b"GET http://example.com/page HTTP/1.1\r\nHost: example.com\r\n\r\n";
    let mut session = Session::new();
    assert_eq!(session.step(Event::Read(head)), connect("example.com:80"));
    assert_eq!(session.step(Event::Connected), Action::WriteUpstream { bytes: head.to_vec() });
    assert_eq!(session.step(Event::Written), Action::Relay);
    assert_eq!(session.step(Event::RelayEnded), close(None));
}

#[test]
fn body_bytes_that_came_with_the_head_are_replayed_too() {
    let sent = b"POST http://example.com:8080/ HTTP/1.1\r\nContent-Length: 9\r\n\r\nname=a\r\n\r";
    let mut session = Session::new();
    assert_eq!(session.step(Event::Read(sent)), connect("example.com:8080"));
    assert_eq!(session.step(Event::Connected), Action::WriteUpstream { bytes: sent.to_vec() });
}

#[test]
fn relative_target_is_resolved_from_the_host_header() {
    let mut session = Session::new();
    let action = session.step(Event::Read(b"GET /page HTTP/1.1\r\nHost: example.com:8080\r\n\r\n"));
    assert_eq!(action, connect("example.com:8080"));
    assert_eq!(session.request_line(), Some("GET /page HTTP/1.1"));
}

#[test]
fn host_header_without_port_stands_for_port_80() {
    let mut session = Session::new();
    let action = session.step(Event::Read(b"GET /page HTTP/1.1\r\nHost: example.com\r\n\r\n"));
    assert_eq!(action, connect("example.com:80"));
}

#[test]
fn port_written_in_the_url_is_the_one_connected() {
    let mut session = Session::new();
    let action = session.step(Event::Read(b"GET https://example.com:443/ HTTP/1.1\r\n\r\n"));
    assert_eq!(action, connect("example.com:443"));
    let mut session = Session::new();
    let action = session.step(Event::Read(b"GET https://example.com/ HTTP/1.1\r\n\r\n"));
    assert_eq!(action, connect("example.com:80"));
}

#[test]
fn connect_target_keeps_its_port() {
    let mut session = Session::new();
    let action = session.step(Event::Read(b"CONNECT example.com:9443 HTTP/1.1\r\n\r\n"));
    assert_eq!(action, connect("example.com:9443"));
}

#[test]
fn head_in_fragments_is_put_together() {
    let mut session = Session::new();
    let action = session.step(Event::Read(b"GET /page HTTP/1.1\r\nHost: exam"));
    assert_eq!(action, Action::Read { max: 1024 - 30 });
    let action = session.step(Event::Read(b"ple.com:8080\r\n"));
    assert_eq!(action, Action::Read { max: 1024 - 44 });
    let action = session.step(Event::Read(b"\r\n"));
    assert_eq!(action, connect("example.com:8080"));
    assert_eq!(
        session.step(Event::Connected),
        Action::WriteUpstream {
            bytes: b"GET /page HTTP/1.1\r\nHost: example.com:8080\r\n\r\n".to_vec()
        }
    );
}

#[test]
fn every_cut_of_the_stream_gives_the_same_upstream() {
    let head = b"GET http://example.com:81/ HTTP/1.1\r\nHost: example.com\r\n\r\n";
    for cut in 1..head.len() {
        let mut session = Session::new();
        assert_eq!(
            session.step(Event::Read(&head[..cut])),
            Action::Read { max: 1024 - cut },
            "cut at {}",
            cut
        );
        assert_eq!(session.step(Event::Read(&head[cut..])), connect("example.com:81"));
        assert_eq!(session.step(Event::Connected), Action::WriteUpstream { bytes: head.to_vec() });
    }
}

#[test]
fn refused_upstream_closes_the_session() {
    let mut session = Session::new();
    session.step(Event::Read(b"CONNECT example.com:443 HTTP/1.1\r\n\r\n"));
    let action = session.step(Event::Failed);
    assert_eq!(action, close(Some(ProxyError::UpstreamConnect)));
    assert_eq!(session.stage(), Stage::Closed);
    assert_eq!(session.failure(), Some(ProxyError::UpstreamConnect));
}

#[test]
fn failure_of_one_session_leaves_another_alone() {
    let mut refused = Session::new();
    let mut served = Session::new();
    refused.step(Event::Read(b"CONNECT closed.example:1 HTTP/1.1\r\n\r\n"));
    served.step(Event::Read(b"CONNECT open.example:443 HTTP/1.1\r\n\r\n"));
    assert_eq!(refused.step(Event::Failed), close(Some(ProxyError::UpstreamConnect)));
    assert_eq!(served.step(Event::Connected), Action::WriteClient { bytes: REPLY.to_vec() });
    assert_eq!(served.step(Event::Written), Action::Relay);
    assert_eq!(served.step(Event::RelayEnded), close(None));
    assert_eq!(refused.failure(), Some(ProxyError::UpstreamConnect));
}

#[test]
fn head_that_never_ends_is_refused() {
    let mut session = Session::new();
    let filler = vec![b'x'; 1000];
    assert_eq!(session.step(Event::Read(&filler)), Action::Read { max: 24 });
    let action = session.step(Event::Read(&filler));
    assert_eq!(action, close(Some(ProxyError::HeadTooLarge)));
    assert_eq!(session.stage(), Stage::Closed);
    assert_eq!(session.step(Event::Read(b"\r\n\r\n")), close(Some(ProxyError::HeadTooLarge)));
}

#[test]
fn head_that_ends_behind_the_buffer_is_refused() {
    let mut sent = vec![b'x'; 1022];
    sent.extend_from_slice(b"\r\n\r\n");
    let mut session = Session::new();
    assert_eq!(session.step(Event::Read(&sent)), close(Some(ProxyError::HeadTooLarge)));
}

#[test]
fn small_buffer_is_full_sooner() {
    let mut session = Session::with_capacity(16);
    assert_eq!(session.pending(), Action::Read { max: 16 });
    assert_eq!(
        session.step(Event::Read(b"GET http://example.com/")),
        close(Some(ProxyError::HeadTooLarge))
    );
    let mut session = Session::with_capacity(16);
    assert_eq!(session.step(Event::Read(b"CONNECT a:1\r\n\r\n")), connect("a:1"));
}

#[test]
fn session_without_buffer_is_over_at_once() {
    let mut session = Session::with_capacity(0);
    assert_eq!(session.stage(), Stage::Closed);
    assert_eq!(session.pending(), close(Some(ProxyError::HeadTooLarge)));
    assert_eq!(session.step(Event::Read(b"x")), close(Some(ProxyError::HeadTooLarge)));
}

#[test]
fn client_that_says_nothing_ends_the_session_cleanly() {
    let mut session = Session::new();
    assert_eq!(session.step(Event::Read(b"")), close(None));
    assert_eq!(session.stage(), Stage::Closed);
    assert_eq!(session.failure(), None);
}

#[test]
fn client_that_leaves_in_the_middle_of_the_head_ends_the_session_cleanly() {
    let mut session = Session::new();
    session.step(Event::Read(b"GET http://exa"));
    assert_eq!(session.step(Event::Read(b"")), close(None));
}

#[test]
fn failed_read_ends_the_session() {
    let mut session = Session::new();
    assert_eq!(session.step(Event::Failed), close(Some(ProxyError::ClientRead)));
}

#[test]
fn head_that_cannot_be_classified_ends_the_session() {
    let cases: [(&[u8], ProxyError); 5] = [
        (b"\r\n\r\n", ProxyError::MissingRequestLine),
        (b"  \r\n\r\n", ProxyError::MissingMethod),
        (b"GET\r\n\r\n", ProxyError::MissingTarget),
        (b"GET http://[::1 HTTP/1.1\r\n\r\n", ProxyError::MalformedTarget),
        (b"GET /page HTTP/1.1\r\n\r\n", ProxyError::NoHost),
    ];
    for (sent, failure) in cases {
        let mut session = Session::new();
        assert_eq!(session.step(Event::Read(sent)), close(Some(failure)));
        assert_eq!(session.failure(), Some(failure));
    }
}

#[test]
fn failed_handshake_ends_the_session() {
    let mut session = Session::new();
    session.step(Event::Read(b"CONNECT example.com:443 HTTP/1.1\r\n\r\n"));
    session.step(Event::Connected);
    assert_eq!(session.step(Event::Failed), close(Some(ProxyError::HandshakeWrite)));
}

#[test]
fn failed_relay_ends_the_session_without_a_failure() {
    let mut session = Session::new();
    session.step(Event::Read(b"CONNECT example.com:443 HTTP/1.1\r\n\r\n"));
    session.step(Event::Connected);
    session.step(Event::Written);
    assert_eq!(session.step(Event::Failed), close(None));
    assert_eq!(session.failure(), None);
}

#[test]
fn report_out_of_turn_changes_nothing() {
    let mut session = Session::new();
    assert_eq!(session.step(Event::Connected), Action::Read { max: 1024 });
    assert_eq!(session.step(Event::Written), Action::Read { max: 1024 });
    assert_eq!(session.step(Event::RelayEnded), Action::Read { max: 1024 });
    assert_eq!(session.stage(), Stage::Capturing);

    session.step(Event::Read(b"CONNECT example.com:443 HTTP/1.1\r\n\r\n"));
    assert_eq!(session.step(Event::Read(b"more")), connect("example.com:443"));
    assert_eq!(session.step(Event::Written), connect("example.com:443"));
    assert_eq!(session.step(Event::RelayEnded), connect("example.com:443"));
    assert_eq!(session.stage(), Stage::Connecting);

    session.step(Event::Connected);
    assert_eq!(session.step(Event::Connected), Action::WriteClient { bytes: REPLY.to_vec() });
    assert_eq!(session.step(Event::RelayEnded), Action::WriteClient { bytes: REPLY.to_vec() });
    assert_eq!(session.stage(), Stage::Handshaking);

    session.step(Event::Written);
    assert_eq!(session.step(Event::Written), Action::Relay);
    assert_eq!(session.step(Event::Read(b"x")), Action::Relay);
    assert_eq!(session.stage(), Stage::Relaying);
}

#[test]
fn closed_session_stays_closed() {
    let mut session = Session::new();
    session.step(Event::Failed);
    for event in [
        Event::Read(b"CONNECT a:1\r\n\r\n"),
        Event::Connected,
        Event::Written,
        Event::RelayEnded,
        Event::Failed,
    ] {
        assert_eq!(session.step(event), close(Some(ProxyError::ClientRead)));
        assert_eq!(session.stage(), Stage::Closed);
    }
}
