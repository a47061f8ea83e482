use chat_core::api::{
    Channel, ClientMessage, LoginError, Message, MessageType, ServerMessage, User,
};
use chat_core::codec::encode_client;
use chat_core::registry::{Delivery, Peer, Reaction, Registry, Upload};

const A: Peer = Peer { ip: 0x7f00_0001, port: 50001 };
const B: Peer = Peer { ip: 0x7f00_0001, port: 50002 };
const C: Peer = Peer { ip: 0x0a00_0005, port: 50001 };

fn send(reg: &mut Registry, peer: Peer, m: ClientMessage) -> Vec<Delivery> {
    match reg.receive(peer, &encode_client(&m)) {
        Reaction::Send(out) => out,
        Reaction::Store(u) => panic!("unexpected upload {:?}", u),
    }
}

fn sign_up(name: &str, pass: &str) -> ClientMessage {
    ClientMessage::SignUp { name: name.to_string(), pass: pass.to_string() }
}

fn login(name: &str, pass: &str) -> ClientMessage {
    ClientMessage::Login { name: name.to_string(), pass: pass.to_string() }
}

fn say(chan: u32, text: &str) -> ClientMessage {
    ClientMessage::Say { chan, text: text.to_string() }
}

fn to(peer: Peer, message: ServerMessage) -> Delivery {
    Delivery { to: peer, message }
}

fn text(from: u32, chan: u32, t: &str) -> Message {
    Message { from, chan, content: MessageType::Text(t.to_string()) }
}

#[test]
fn sign_up_gives_increasing_ids_and_refuses_repeats() {
    let mut reg = Registry::new();
    reg.connect(A);
    assert_eq!(send(&mut reg, A, sign_up("alice", "pw1")), vec![to(A, ServerMessage::LoggedIn(Ok(0)))]);
    assert_eq!(send(&mut reg, A, sign_up("bob", "pw2")), vec![to(A, ServerMessage::LoggedIn(Ok(1)))]);
    assert_eq!(
        send(&mut reg, A, sign_up("alice", "pw1")),
        vec![to(A, ServerMessage::LoggedIn(Err(LoginError::NameAlreadyExists)))]
    );
    // the credential pair, not the name alone, identifies an account
    assert_eq!(send(&mut reg, A, sign_up("alice", "other")), vec![to(A, ServerMessage::LoggedIn(Ok(2)))]);
}

#[test]
fn sign_up_does_not_log_in() {
    let mut reg = Registry::new();
    reg.connect(A);
    send(&mut reg, A, sign_up("alice", "pw1"));
    assert_eq!(reg.login_of(A), None);
    assert_eq!(send(&mut reg, A, say(0, "hi")), vec![to(A, ServerMessage::Closed)]);
}

#[test]
fn login_before_sign_up_is_wrong_name_or_pass() {
    let mut reg = Registry::new();
    reg.connect(A);
    assert_eq!(
        send(&mut reg, A, login("alice", "wrong")),
        vec![to(A, ServerMessage::LoggedIn(Err(LoginError::WrongNameOrPass)))]
    );
    send(&mut reg, A, sign_up("alice", "pw1"));
    assert_eq!(
        send(&mut reg, A, login("alice", "wrong")),
        vec![to(A, ServerMessage::LoggedIn(Err(LoginError::WrongNameOrPass)))]
    );
    assert_eq!(reg.login_of(A), None);
}

#[test]
fn second_login_is_already_logged() {
    let mut reg = Registry::new();
    reg.connect(A);
    send(&mut reg, A, sign_up("alice", "pw1"));
    send(&mut reg, A, sign_up("bob", "pw2"));
    let first = send(&mut reg, A, login("alice", "pw1"));
    assert_eq!(first[0], to(A, ServerMessage::LoggedIn(Ok(0))));
    assert_eq!(reg.login_of(A), Some(0));
    assert_eq!(
        send(&mut reg, A, login("alice", "pw1")),
        vec![to(A, ServerMessage::LoggedIn(Err(LoginError::AlreadyLogged)))]
    );
    assert_eq!(
        send(&mut reg, A, login("bob", "pw2")),
        vec![to(A, ServerMessage::LoggedIn(Err(LoginError::AlreadyLogged)))]
    );
    assert_eq!(reg.login_of(A), Some(0));
}

#[test]
fn anonymous_say_is_closed_without_history_or_broadcast() {
    let mut reg = Registry::new();
    reg.connect(A);
    reg.connect(B);
    assert_eq!(send(&mut reg, B, say(0, "hi")), vec![to(B, ServerMessage::Closed)]);
    // nothing was stored: a later login sees an empty channel 0
    send(&mut reg, A, sign_up("alice", "pw1"));
    let out = send(&mut reg, A, login("alice", "pw1"));
    match &out[2].message {
        ServerMessage::Channel(c) => {
            assert_eq!(c.id, 0);
            assert!(c.history.is_empty());
        }
        other => panic!("expected a channel, got {:?}", other),
    }
}

#[test]
fn login_sends_directory_with_filtered_history() {
    let mut reg = Registry::new();
    reg.connect(A);
    reg.connect(B);
    send(&mut reg, A, sign_up("alice", "pw1"));
    send(&mut reg, A, sign_up("bob", "pw2"));
    send(&mut reg, A, login("alice", "pw1"));
    send(&mut reg, A, say(0, "zero"));
    send(&mut reg, A, say(2, "two"));
    send(&mut reg, A, say(0, "again"));

    let out = send(&mut reg, B, login("bob", "pw2"));
    let expected = vec![
        to(B, ServerMessage::LoggedIn(Ok(1))),
        to(B, ServerMessage::User(User { id: 0, name: "alice".to_string(), avatar: None })),
        to(B, ServerMessage::User(User { id: 1, name: "bob".to_string(), avatar: None })),
        to(
            B,
            ServerMessage::Channel(Channel {
                id: 0,
                name: "Общение".to_string(),
                icon: Some("./images/chatting.png".to_string()),
                history: vec![text(0, 0, "zero"), text(0, 0, "again")],
            }),
        ),
        to(
            B,
            ServerMessage::Channel(Channel {
                id: 1,
                name: "Разработка".to_string(),
                icon: Some("./images/development.png".to_string()),
                history: vec![],
            }),
        ),
        to(
            B,
            ServerMessage::Channel(Channel {
                id: 2,
                name: "Программирование".to_string(),
                icon: Some("./images/code.png".to_string()),
                history: vec![text(0, 2, "two")],
            }),
        ),
        to(
            B,
            ServerMessage::Channel(Channel {
                id: 3,
                name: "Игры".to_string(),
                icon: Some("./images/games.png".to_string()),
                history: vec![],
            }),
        ),
    ];
    assert_eq!(out, expected);
}

#[test]
fn say_is_broadcast_to_every_connection_once() {
    let mut reg = Registry::new();
    reg.connect(A);
    reg.connect(B);
    reg.connect(C);
    send(&mut reg, A, sign_up("alice", "pw1"));
    send(&mut reg, A, login("alice", "pw1"));
    let out = send(&mut reg, A, say(0, "hi"));
    let m = ServerMessage::Message(text(0, 0, "hi"));
    assert_eq!(out.len(), 3);
    for peer in [A, B, C] {
        assert_eq!(out.iter().filter(|d| d.to == peer).count(), 1);
    }
    assert!(out.iter().all(|d| d.message == m));
}

#[test]
fn close_of_unknown_address_is_a_no_op() {
    let mut reg = Registry::new();
    reg.connect(A);
    reg.disconnect(B);
    assert!(reg.is_connected(A));
    reg.disconnect(A);
    assert!(!reg.is_connected(A));
    reg.disconnect(A);
    assert!(!reg.is_connected(A));
    // nothing is broadcast to a closed connection
    reg.connect(B);
    send(&mut reg, B, sign_up("bob", "pw2"));
    send(&mut reg, B, login("bob", "pw2"));
    let out = send(&mut reg, B, say(1, "alone"));
    assert_eq!(out, vec![to(B, ServerMessage::Message(text(0, 1, "alone")))]);
}

#[test]
fn reconnect_at_same_address_starts_anonymous() {
    let mut reg = Registry::new();
    reg.connect(A);
    send(&mut reg, A, sign_up("alice", "pw1"));
    send(&mut reg, A, login("alice", "pw1"));
    assert_eq!(reg.login_of(A), Some(0));
    reg.connect(A);
    assert_eq!(reg.login_of(A), None);
    assert_eq!(send(&mut reg, A, say(0, "hi")), vec![to(A, ServerMessage::Closed)]);
}

#[test]
fn undecodable_frame_gets_closed() {
    let mut reg = Registry::new();
    reg.connect(A);
    match reg.receive(A, &[9, 0, 0, 0]) {
        Reaction::Send(out) => assert_eq!(out, vec![to(A, ServerMessage::Closed)]),
        other => panic!("unexpected {:?}", other),
    }
    assert!(reg.is_connected(A));
}

#[test]
fn file_goes_to_store_then_is_broadcast() {
    let mut reg = Registry::new();
    reg.connect(A);
    reg.connect(B);
    let file = ClientMessage::File { chan: 1, ext: "png".to_string(), bytes: vec![1, 2, 3] };
    assert_eq!(send(&mut reg, B, file.clone()), vec![to(B, ServerMessage::Closed)]);

    send(&mut reg, A, sign_up("alice", "pw1"));
    send(&mut reg, A, login("alice", "pw1"));
    let reaction = reg.receive(A, &encode_client(&file));
    assert_eq!(
        reaction,
        Reaction::Store(Upload { chan: 1, ext: "png".to_string(), bytes: vec![1, 2, 3] })
    );
    let out = reg.attach_file(A, 1, "abc.png".to_string());
    let m = ServerMessage::Message(Message {
        from: 0,
        chan: 1,
        content: MessageType::File("abc.png".to_string()),
    });
    assert_eq!(out, vec![to(A, ServerMessage::Message(Message {
        from: 0,
        chan: 1,
        content: MessageType::File("abc.png".to_string()),
    })), to(B, m)]);
}

#[test]
fn scenario_two_users_one_listener() {
    let mut reg = Registry::new();
    reg.connect(A);
    reg.connect(B);
    assert_eq!(send(&mut reg, A, sign_up("alice", "pw1")), vec![to(A, ServerMessage::LoggedIn(Ok(0)))]);
    assert_eq!(send(&mut reg, A, sign_up("bob", "pw2")), vec![to(A, ServerMessage::LoggedIn(Ok(1)))]);
    let out = send(&mut reg, A, login("alice", "pw1"));
    assert_eq!(out[0], to(A, ServerMessage::LoggedIn(Ok(0))));
    assert_eq!(send(&mut reg, B, say(0, "hi")), vec![to(B, ServerMessage::Closed)]);
    let out = send(&mut reg, A, say(0, "hi"));
    let m = text(0, 0, "hi");
    assert_eq!(
        out,
        vec![to(A, ServerMessage::Message(m.clone())), to(B, ServerMessage::Message(m))]
    );
}
