use robotdreams::codec::encode;
use robotdreams::message::MessageType;
use robotdreams::naming::{blob_path, Timestamp};
use robotdreams::session::{Action, BlobKind, Event, Phase, ServerConfig, Session, ROOM_ID};

fn config(require_login: bool) -> ServerConfig {
    ServerConfig {
        username: "user".to_string(),
        password: "password".to_string(),
        require_login,
    }
}

fn received(m: MessageType) -> Event {
    Event::Received(encode(&m))
}

fn logged_in(cfg: &ServerConfig, id: i64) -> Session {
    let (mut s, first) = Session::start(cfg);
    assert!(first.is_empty());
    s.step(cfg, received(MessageType::Login("user".to_string(), "password".to_string())));
    s.step(cfg, Event::UserCreated(id));
    s
}

#[test]
fn login_success_then_text_is_saved() {
    let cfg = config(true);
    let (mut s, first) = Session::start(&cfg);
    assert!(first.is_empty());
    assert_eq!(s.phase, Phase::AwaitingLogin);
    let a = s.step(&cfg, received(MessageType::Login("user".to_string(), "password".to_string())));
    assert_eq!(a, vec![Action::CreateUser]);
    let a = s.step(&cfg, Event::UserCreated(7));
    assert_eq!(a, vec![Action::Send(encode(&MessageType::LoginResponse(true)))]);
    assert_eq!(s.user_id(), Some(7));
    let a = s.step(&cfg, received(MessageType::Text("hi".to_string())));
    assert_eq!(
        a,
        vec![Action::SaveText { sender_id: 7, receiver_id: ROOM_ID, content: "hi".to_string() }]
    );
}

#[test]
fn login_failure_answers_and_closes() {
    let cfg = config(true);
    let (mut s, _) = Session::start(&cfg);
    let a = s.step(&cfg, received(MessageType::Login("user".to_string(), "wrong".to_string())));
    assert_eq!(
        a,
        vec![
            Action::Send(encode(&MessageType::LoginResponse(false))),
            Action::Send(encode(&MessageType::Quit)),
        ]
    );
    assert!(s.is_closed());
    let a = s.step(&cfg, received(MessageType::Text("after".to_string())));
    assert!(a.is_empty());
    assert!(s.is_closed());
}

#[test]
fn file_is_stored_under_generated_name() {
    let cfg = config(true);
    let mut s = logged_in(&cfg, 3);
    let a = s.step(&cfg, received(MessageType::File("report.txt".to_string(), b"hello".to_vec())));
    assert_eq!(
        a,
        vec![Action::StoreBlob {
            kind: BlobKind::File,
            client_name: "report.txt".to_string(),
            bytes: b"hello".to_vec(),
        }]
    );
    let t = Timestamp::new(2024, 1, 5, 3, 4, 9).unwrap();
    let path = blob_path(BlobKind::File, &t);
    assert_eq!(path, "files/20240105030409.txt");
    assert!(!path.contains("report"));
}

#[test]
fn image_is_stored_as_png() {
    let cfg = config(true);
    let mut s = logged_in(&cfg, 3);
    let a = s.step(&cfg, received(MessageType::Image("cat.jpg".to_string(), vec![1, 2, 3])));
    assert_eq!(
        a,
        vec![Action::StoreBlob {
            kind: BlobKind::Image,
            client_name: "cat.jpg".to_string(),
            bytes: vec![1, 2, 3],
        }]
    );
    let t = Timestamp::new(2024, 12, 31, 23, 59, 58).unwrap();
    assert_eq!(blob_path(BlobKind::Image, &t), "images/20241231235958.png");
}

#[test]
fn quit_terminates_loop() {
    let cfg = config(true);
    let mut s = logged_in(&cfg, 4);
    let a = s.step(&cfg, received(MessageType::Quit));
    assert!(a.is_empty());
    assert!(s.is_closed());
    assert!(s.step(&cfg, received(MessageType::Text("late".to_string()))).is_empty());
    assert!(s.step(&cfg, Event::PeerClosed).is_empty());
    assert!(s.is_closed());
}

#[test]
fn quit_before_login_closes() {
    let cfg = config(true);
    let (mut s, _) = Session::start(&cfg);
    assert!(s.step(&cfg, received(MessageType::Quit)).is_empty());
    assert!(s.is_closed());
}

#[test]
fn concurrent_clients_get_independent_ids() {
    let cfg = config(true);
    let mut a = logged_in(&cfg, 1);
    let mut b = logged_in(&cfg, 2);
    let from_b = b.step(&cfg, received(MessageType::Text("from b".to_string())));
    let from_a = a.step(&cfg, received(MessageType::Text("from a".to_string())));
    assert_eq!(
        from_a,
        vec![Action::SaveText { sender_id: 1, receiver_id: ROOM_ID, content: "from a".to_string() }]
    );
    assert_eq!(
        from_b,
        vec![Action::SaveText { sender_id: 2, receiver_id: ROOM_ID, content: "from b".to_string() }]
    );
}

#[test]
fn undecodable_read_is_dropped() {
    let cfg = config(true);
    let mut s = logged_in(&cfg, 5);
    assert!(s.step(&cfg, Event::Received(vec![0xff, 0x00])).is_empty());
    assert_eq!(s.phase, Phase::Active(5));
}

#[test]
fn messages_out_of_place_are_ignored() {
    let cfg = config(true);
    let (mut s, _) = Session::start(&cfg);
    assert!(s.step(&cfg, received(MessageType::Text("early".to_string()))).is_empty());
    assert_eq!(s.phase, Phase::AwaitingLogin);
    let mut s = logged_in(&cfg, 6);
    assert!(s.step(&cfg, received(MessageType::LoginResponse(true))).is_empty());
    assert!(s
        .step(&cfg, received(MessageType::Login("user".to_string(), "wrong".to_string())))
        .is_empty());
    assert_eq!(s.phase, Phase::Active(6));
}

#[test]
fn user_creation_failure_closes() {
    let cfg = config(true);
    let (mut s, _) = Session::start(&cfg);
    s.step(&cfg, received(MessageType::Login("user".to_string(), "password".to_string())));
    assert_eq!(s.phase, Phase::Registering);
    assert!(s.step(&cfg, Event::UserCreationFailed).is_empty());
    assert!(s.is_closed());
}

#[test]
fn socket_failure_and_peer_close_end_session() {
    let cfg = config(true);
    let mut s = logged_in(&cfg, 8);
    assert!(s.step(&cfg, Event::SocketFailed).is_empty());
    assert!(s.is_closed());
    let mut s = logged_in(&cfg, 9);
    assert!(s.step(&cfg, Event::PeerClosed).is_empty());
    assert!(s.is_closed());
}

#[test]
fn without_login_user_is_created_at_once() {
    let cfg = config(false);
    let (mut s, first) = Session::start(&cfg);
    assert_eq!(first, vec![Action::CreateUser]);
    assert!(s.step(&cfg, Event::UserCreated(11)).is_empty());
    assert_eq!(s.user_id(), Some(11));
    let a = s.step(&cfg, received(MessageType::Text("hey".to_string())));
    assert_eq!(
        a,
        vec![Action::SaveText { sender_id: 11, receiver_id: ROOM_ID, content: "hey".to_string() }]
    );
}
