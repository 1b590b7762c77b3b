use webrpc::presence::build_activity;
use webrpc::protocol::Message;
use webrpc::services::{MusicServiceInfo, Service};
use webrpc::session::{FrameDecision, Request, Session, SessionError, SessionState};

const APP_ID: u64 = 1238876651492868157;

fn active_session() -> Session {
    let mut s = Session::new(APP_ID);
    s.begin_handshake();
    let hello = s.complete_handshake(true, 1700000000);
    assert!(hello.is_some());
    s
}

#[test]
fn hello_is_first_and_only() {
    let mut s = Session::new(APP_ID);
    assert_eq!(s.state, SessionState::Connecting);
    s.begin_handshake();
    assert_eq!(s.state, SessionState::Handshaking);
    let hello = s.complete_handshake(true, 42);
    assert_eq!(s.state, SessionState::Active);
    match hello {
        Some(Message::Hello { msg, time, app_id }) => {
            assert_eq!(msg, "hello from webrpc :D");
            assert_eq!(time, 42);
            assert_eq!(app_id, APP_ID);
        }
        other => panic!("expected a hello, got {:?}", other),
    }
}

#[test]
fn failed_handshake_sends_nothing() {
    let mut s = Session::new(APP_ID);
    s.begin_handshake();
    let hello = s.complete_handshake(false, 42);
    assert!(hello.is_none());
    assert_eq!(s.state, SessionState::Closed);
}

#[test]
fn update_frame_becomes_request_and_ack_echoes_id() {
    let mut s = active_session();
    let frame = "{\"type\":\"update\",\"service\":{\"youTubeMusic\":{\"song\":\"Song A\",\
                 \"artist\":\"Artist A\",\"paused\":false}},\"id\":1}";
    let d = s.on_frame(true, frame);
    let req = match d {
        FrameDecision::Handle(req) => req,
        other => panic!("expected a request, got {:?}", other),
    };
    let id = match req {
        Request::Update { service: Service::YouTubeMusic(info), id } => {
            assert_eq!(info.song, "Song A");
            assert_eq!(info.artist, "Artist A");
            assert!(!info.paused);
            id
        }
        other => panic!("expected an update, got {:?}", other),
    };
    assert_eq!(s.acknowledge(id), Message::Ack { id: 1 });
    assert_eq!(s.state, SessionState::Active);
}

#[test]
fn clear_frame_becomes_request_and_ack_echoes_id() {
    let mut s = active_session();
    let d = s.on_frame(true, "{\"type\":\"clear\",\"id\":2}");
    assert_eq!(d, FrameDecision::Handle(Request::Clear { id: 2 }));
    assert_eq!(s.acknowledge(2), Message::Ack { id: 2 });
}

#[test]
fn concurrent_requests_get_their_own_acks() {
    let mut s = active_session();
    let d1 = s.on_frame(true, "{\"type\":\"clear\",\"id\":10}");
    let d2 = s.on_frame(true, "{\"type\":\"clear\",\"id\":11}");
    assert_eq!(d1, FrameDecision::Handle(Request::Clear { id: 10 }));
    assert_eq!(d2, FrameDecision::Handle(Request::Clear { id: 11 }));
    let a2 = s.acknowledge(11);
    let a1 = s.acknowledge(10);
    assert_eq!(a1, Message::Ack { id: 10 });
    assert_eq!(a2, Message::Ack { id: 11 });
    assert_ne!(a1, a2);
}

#[test]
fn non_text_frames_are_ignored() {
    let mut s = active_session();
    assert_eq!(s.on_frame(false, ""), FrameDecision::Ignore);
    assert_eq!(s.state, SessionState::Active);
}

#[test]
fn malformed_frame_closes_only_that_session() {
    let mut bad = active_session();
    let mut good = active_session();
    let d = bad.on_frame(true, "not json");
    assert!(matches!(d, FrameDecision::Close(SessionError::Malformed(_))));
    assert_eq!(bad.state, SessionState::Closed);
    // The sibling connection keeps working and still gets correct acks.
    let d = good.on_frame(true, "{\"type\":\"clear\",\"id\":9}");
    assert_eq!(d, FrameDecision::Handle(Request::Clear { id: 9 }));
    assert_eq!(good.acknowledge(9), Message::Ack { id: 9 });
    assert_eq!(good.state, SessionState::Active);
}

#[test]
fn client_sent_hello_or_ack_closes_session() {
    let mut s = active_session();
    let d = s.on_frame(true, "{\"type\":\"ack\",\"id\":1}");
    assert_eq!(d, FrameDecision::Close(SessionError::UnexpectedVariant));
    assert_eq!(s.state, SessionState::Closed);

    let mut s = active_session();
    let d = s.on_frame(
        true,
        "{\"type\":\"hello\",\"msg\":\"hi\",\"time\":1,\"appId\":2}",
    );
    assert_eq!(d, FrameDecision::Close(SessionError::UnexpectedVariant));
    assert_eq!(s.state, SessionState::Closed);
}

#[test]
fn build_activity_playing() {
    let info = MusicServiceInfo {
        song: "Song A".to_string(),
        artist: "Artist A".to_string(),
        paused: false,
    };
    let p = build_activity(&info);
    assert_eq!(p.details, "Song A");
    assert_eq!(p.state, "Artist A");
    assert_eq!(p.large_image, "youtubemusic");
    assert_eq!(p.large_text, "Artist A - Song A");
    assert!(p.small_image.is_none());
    assert!(p.small_text.is_none());
}

#[test]
fn build_activity_paused() {
    let info = MusicServiceInfo {
        song: "Song B".to_string(),
        artist: "Artist B".to_string(),
        paused: true,
    };
    let p = build_activity(&info);
    assert_eq!(p.small_image.as_deref(), Some("paused"));
    assert_eq!(p.small_text.as_deref(), Some("Paused"));
}
