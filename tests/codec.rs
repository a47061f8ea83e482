use chat_core::api::{
    Channel, ClientMessage, LoginError, Message, MessageType, ServerMessage, User,
};
use chat_core::codec::{decode_client, decode_server, encode_client, encode_server, DecodeError};

fn config() -> bincode::config::Configuration<
    bincode::config::LittleEndian,
    bincode::config::Fixint,
    bincode::config::NoLimit,
> {
    bincode::config::standard().with_fixed_int_encoding()
}

fn sample_messages() -> Vec<Message> {
    vec![
        Message { from: 0, chan: 0, content: MessageType::Text("hi".to_string()) },
        Message { from: 7, chan: 2, content: MessageType::File("abc.png".to_string()) },
        Message { from: u32::MAX, chan: 0, content: MessageType::Text("привет".to_string()) },
    ]
}

fn client_samples() -> Vec<ClientMessage> {
    vec![
        ClientMessage::SignUp { name: "alice".to_string(), pass: "pw1".to_string() },
        ClientMessage::SignUp { name: String::new(), pass: String::new() },
        ClientMessage::Login { name: "bob".to_string(), pass: "pässwörd".to_string() },
        ClientMessage::Say { chan: 0, text: "hi".to_string() },
        ClientMessage::Say { chan: u32::MAX, text: "🦀 emoji".to_string() },
        ClientMessage::File { chan: 3, ext: "png".to_string(), bytes: vec![0, 1, 2, 255] },
        ClientMessage::File { chan: 1, ext: String::new(), bytes: vec![] },
    ]
}

fn server_samples() -> Vec<ServerMessage> {
    vec![
        ServerMessage::Closed,
        ServerMessage::LoggedIn(Ok(0)),
        ServerMessage::LoggedIn(Ok(u32::MAX)),
        ServerMessage::LoggedIn(Err(LoginError::NameAlreadyExists)),
        ServerMessage::LoggedIn(Err(LoginError::AlreadyLogged)),
        ServerMessage::LoggedIn(Err(LoginError::WrongNameOrPass)),
        ServerMessage::User(User { id: 4, name: "test4".to_string(), avatar: None }),
        ServerMessage::User(User {
            id: 1,
            name: "test1".to_string(),
            avatar: Some("./images/test1.jpg".to_string()),
        }),
        ServerMessage::Channel(Channel {
            id: 0,
            name: "Общение".to_string(),
            icon: Some("./images/chatting.png".to_string()),
            history: sample_messages(),
        }),
        ServerMessage::Channel(Channel { id: 3, name: "x".to_string(), icon: None, history: vec![] }),
        ServerMessage::Message(Message {
            from: 1,
            chan: 2,
            content: MessageType::File("f.txt".to_string()),
        }),
    ]
}

#[test]
fn client_round_trip_every_variant() {
    for m in client_samples() {
        let bytes = encode_client(&m);
        assert_eq!(decode_client(&bytes), Ok(m));
    }
}

#[test]
fn server_round_trip_every_variant() {
    for m in server_samples() {
        let bytes = encode_server(&m);
        assert_eq!(decode_server(&bytes), Ok(m));
    }
}

#[test]
fn trailing_bytes_are_ignored() {
    let m = ClientMessage::Say { chan: 5, text: "tail".to_string() };
    let mut bytes = encode_client(&m);
    bytes.extend_from_slice(&[9, 9, 9]);
    assert_eq!(decode_client(&bytes), Ok(m));
}

#[test]
fn say_matches_bincode_layout() {
    let m = ClientMessage::Say { chan: 3, text: "hi".to_string() };
    let expected = bincode::encode_to_vec((2u32, 3u32, "hi"), config()).unwrap();
    assert_eq!(encode_client(&m), expected);
    assert_eq!(
        encode_client(&m),
        vec![2, 0, 0, 0, 3, 0, 0, 0, 2, 0, 0, 0, 0, 0, 0, 0, b'h', b'i']
    );
}

#[test]
fn sign_up_and_file_match_bincode_layout() {
    let m = ClientMessage::SignUp { name: "alice".to_string(), pass: "pw1".to_string() };
    let expected = bincode::encode_to_vec((0u32, "alice", "pw1"), config()).unwrap();
    assert_eq!(encode_client(&m), expected);

    let bytes: &[u8] = &[1, 2, 3];
    let m = ClientMessage::File { chan: 7, ext: "png".to_string(), bytes: bytes.to_vec() };
    let expected = bincode::encode_to_vec((3u32, 7u32, "png", bytes), config()).unwrap();
    assert_eq!(encode_client(&m), expected);
}

#[test]
fn server_messages_match_bincode_layout() {
    let m = ServerMessage::LoggedIn(Err(LoginError::AlreadyLogged));
    let expected = bincode::encode_to_vec((1u32, 1u32, 1u32), config()).unwrap();
    assert_eq!(encode_server(&m), expected);

    let m = ServerMessage::LoggedIn(Ok(42));
    let expected = bincode::encode_to_vec((1u32, 0u32, 42u32), config()).unwrap();
    assert_eq!(encode_server(&m), expected);

    let m = ServerMessage::User(User { id: 5, name: "bob".to_string(), avatar: Some("a.png".to_string()) });
    let expected = bincode::encode_to_vec((2u32, 5u32, "bob", Some("a.png")), config()).unwrap();
    assert_eq!(encode_server(&m), expected);

    let m = ServerMessage::Channel(Channel {
        id: 1,
        name: "c".to_string(),
        icon: None,
        history: vec![Message { from: 9, chan: 1, content: MessageType::Text("t".to_string()) }],
    });
    let none: Option<&str> = None;
    let expected =
        bincode::encode_to_vec((3u32, 1u32, "c", none, 1u64, 9u32, 1u32, 0u32, "t"), config()).unwrap();
    assert_eq!(encode_server(&m), expected);

    let m = ServerMessage::Closed;
    assert_eq!(encode_server(&m), vec![0, 0, 0, 0]);
}

#[test]
fn decode_empty_frame_fails() {
    assert_eq!(decode_client(&[]), Err(DecodeError));
    assert_eq!(decode_server(&[]), Err(DecodeError));
}

#[test]
fn decode_unknown_variant_fails() {
    assert_eq!(decode_client(&[4, 0, 0, 0]), Err(DecodeError));
    assert_eq!(decode_server(&[5, 0, 0, 0]), Err(DecodeError));
    // LoggedIn(Err(3)): no such login error
    assert_eq!(decode_server(&[1, 0, 0, 0, 1, 0, 0, 0, 3, 0, 0, 0]), Err(DecodeError));
    // LoggedIn with a result tag of 2
    assert_eq!(decode_server(&[1, 0, 0, 0, 2, 0, 0, 0, 3, 0, 0, 0]), Err(DecodeError));
}

#[test]
fn decode_truncated_frame_fails() {
    let m = ClientMessage::Login { name: "alice".to_string(), pass: "pw1".to_string() };
    let bytes = encode_client(&m);
    for cut in 0..bytes.len() {
        assert_eq!(decode_client(&bytes[..cut]), Err(DecodeError));
    }
    for m in server_samples() {
        let bytes = encode_server(&m);
        for cut in 0..bytes.len() {
            assert_eq!(decode_server(&bytes[..cut]), Err(DecodeError));
        }
    }
}

#[test]
fn decode_length_beyond_frame_fails() {
    let mut bytes = vec![2, 0, 0, 0, 0, 0, 0, 0];
    bytes.extend_from_slice(&u64::MAX.to_le_bytes());
    bytes.extend_from_slice(b"hi");
    assert_eq!(decode_client(&bytes), Err(DecodeError));
}

#[test]
fn decode_invalid_utf8_fails() {
    let mut bytes = vec![2, 0, 0, 0, 0, 0, 0, 0, 2, 0, 0, 0, 0, 0, 0, 0];
    bytes.extend_from_slice(&[0xC0, 0x80]);
    assert_eq!(decode_client(&bytes), Err(DecodeError));
    let mut bytes = vec![2, 0, 0, 0, 0, 0, 0, 0, 3, 0, 0, 0, 0, 0, 0, 0];
    bytes.extend_from_slice(&[0xED, 0xA0, 0x80]);
    assert_eq!(decode_client(&bytes), Err(DecodeError));
}

#[test]
fn decode_reads_non_ascii_text() {
    let mut bytes = vec![2, 0, 0, 0, 1, 0, 0, 0];
    let text = "Игры";
    bytes.extend_from_slice(&(text.len() as u64).to_le_bytes());
    bytes.extend_from_slice(text.as_bytes());
    assert_eq!(
        decode_client(&bytes),
        Ok(ClientMessage::Say { chan: 1, text: "Игры".to_string() })
    );
}

#[test]
fn decode_bad_option_flag_fails() {
    let mut bytes = vec![2, 0, 0, 0, 1, 0, 0, 0, 1, 0, 0, 0, 0, 0, 0, 0, b'x'];
    bytes.push(2);
    assert_eq!(decode_server(&bytes), Err(DecodeError));
    let mut ok = bytes.clone();
    *ok.last_mut().unwrap() = 0;
    assert_eq!(
        decode_server(&ok),
        Ok(ServerMessage::User(User { id: 1, name: "x".to_string(), avatar: None }))
    );
}

#[test]
fn login_error_descriptions() {
    assert_eq!(LoginError::NameAlreadyExists.describe(), "name already exists");
    assert_eq!(LoginError::AlreadyLogged.describe(), "already logged");
    assert_eq!(LoginError::WrongNameOrPass.describe(), "wrong name or pass");
}
