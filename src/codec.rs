//! The wire format: every integer is fixed-width little-endian, an enum
//! starts with its variant index as a `u32`, a length (of a string, a byte
//! payload or a list) is a `u64`, a string is its UTF-8 bytes after their
//! length, and an optional value is a `u8` flag (0 absent, 1 present)
//! followed by the value. The transport delimits frames, so nothing gives
//! the length of a whole message; bytes after a complete message are
//! ignored.

use vstd::prelude::*;
use vstd::bytes::*;
use vstd::slice::*;
use vstd::string::*;
use vstd::utf8::*;
use crate::api::{
    opt_view, messages_view, ClientMessage, ClientMessageView, ContentView, LoginError, Message,
    MessageType, MessageView, ServerMessage, ServerMessageView, UserView, ChannelView, User, Channel,
};

verus! {

broadcast use {vstd::utf8::encode_utf8_valid_utf8, vstd::utf8::encode_utf8_decode_utf8};

/// The frame could not be read as a message.
#[derive(Clone, Copy, Debug, PartialEq, Eq, Structural)]
pub struct DecodeError;

// ---------------------------------------------------------------------------
// The encoding, as sequences of bytes.
// ---------------------------------------------------------------------------

pub open spec fn enc_u32(v: u32) -> Seq<u8> {
    spec_u32_to_le_bytes(v)
}

pub open spec fn enc_len(n: nat) -> Seq<u8> {
    spec_u64_to_le_bytes(n as u64)
}

pub open spec fn enc_bytes(b: Seq<u8>) -> Seq<u8> {
    enc_len(b.len()) + b
}

pub open spec fn enc_str(s: Seq<char>) -> Seq<u8> {
    enc_bytes(encode_utf8(s))
}

pub open spec fn enc_opt_str(o: Option<Seq<char>>) -> Seq<u8> {
    match o {
        None => seq![0u8],
        Some(s) => seq![1u8] + enc_str(s),
    }
}

pub open spec fn enc_content(c: ContentView) -> Seq<u8> {
    match c {
        ContentView::Text(s) => enc_u32(0) + enc_str(s),
        ContentView::File(s) => enc_u32(1) + enc_str(s),
    }
}

pub open spec fn enc_message(m: MessageView) -> Seq<u8> {
    enc_u32(m.from) + enc_u32(m.chan) + enc_content(m.content)
}

/// The messages one after another, with no count in front.
pub open spec fn enc_messages(ms: Seq<MessageView>) -> Seq<u8>
    decreases ms.len(),
{
    if ms.len() == 0 {
        Seq::empty()
    } else {
        enc_messages(ms.drop_last()) + enc_message(ms.last())
    }
}

pub open spec fn error_index(e: LoginError) -> u32 {
    match e {
        LoginError::NameAlreadyExists => 0,
        LoginError::AlreadyLogged => 1,
        LoginError::WrongNameOrPass => 2,
    }
}

pub open spec fn enc_login(r: Result<u32, LoginError>) -> Seq<u8> {
    match r {
        Ok(id) => enc_u32(0) + enc_u32(id),
        Err(e) => enc_u32(1) + enc_u32(error_index(e)),
    }
}

pub open spec fn enc_client(m: ClientMessageView) -> Seq<u8> {
    match m {
        ClientMessageView::SignUp { name, pass } => enc_u32(0) + enc_str(name) + enc_str(pass),
        ClientMessageView::Login { name, pass } => enc_u32(1) + enc_str(name) + enc_str(pass),
        ClientMessageView::Say { chan, text } => enc_u32(2) + enc_u32(chan) + enc_str(text),
        ClientMessageView::File { chan, ext, bytes } => enc_u32(3) + enc_u32(chan) + enc_str(ext)
            + enc_bytes(bytes),
    }
}

pub open spec fn enc_user(u: UserView) -> Seq<u8> {
    enc_u32(u.id) + enc_str(u.name) + enc_opt_str(u.avatar)
}

pub open spec fn enc_channel(c: ChannelView) -> Seq<u8> {
    enc_u32(c.id) + enc_str(c.name) + enc_opt_str(c.icon) + enc_len(c.history.len())
        + enc_messages(c.history)
}

pub open spec fn enc_server(m: ServerMessageView) -> Seq<u8> {
    match m {
        ServerMessageView::Closed => enc_u32(0),
        ServerMessageView::LoggedIn(r) => enc_u32(1) + enc_login(r),
        ServerMessageView::User(u) => enc_u32(2) + enc_user(u),
        ServerMessageView::Channel(c) => enc_u32(3) + enc_channel(c),
        ServerMessageView::Message(m) => enc_u32(4) + enc_message(m),
    }
}

// ---------------------------------------------------------------------------
// Which values have every length within the 64-bit length field. Every value
// held in memory does (see the `ensures` of the encoders).
// ---------------------------------------------------------------------------

pub open spec fn fits(n: nat) -> bool {
    n <= u64::MAX
}

pub open spec fn str_fits(s: Seq<char>) -> bool {
    fits(encode_utf8(s).len())
}

pub open spec fn opt_str_fits(o: Option<Seq<char>>) -> bool {
    match o {
        None => true,
        Some(s) => str_fits(s),
    }
}

pub open spec fn content_fits(c: ContentView) -> bool {
    match c {
        ContentView::Text(s) => str_fits(s),
        ContentView::File(s) => str_fits(s),
    }
}

pub open spec fn messages_fit(ms: Seq<MessageView>) -> bool {
    forall|i: int| 0 <= i < ms.len() ==> #[trigger] content_fits(ms[i].content)
}

pub open spec fn client_fits(m: ClientMessageView) -> bool {
    match m {
        ClientMessageView::SignUp { name, pass } => str_fits(name) && str_fits(pass),
        ClientMessageView::Login { name, pass } => str_fits(name) && str_fits(pass),
        ClientMessageView::Say { chan, text } => str_fits(text),
        ClientMessageView::File { chan, ext, bytes } => str_fits(ext) && fits(bytes.len()),
    }
}

pub open spec fn server_fits(m: ServerMessageView) -> bool {
    match m {
        ServerMessageView::Closed => true,
        ServerMessageView::LoggedIn(_) => true,
        ServerMessageView::User(u) => str_fits(u.name) && opt_str_fits(u.avatar),
        ServerMessageView::Channel(c) => str_fits(c.name) && opt_str_fits(c.icon) && fits(
            c.history.len(),
        ) && messages_fit(c.history),
        ServerMessageView::Message(m) => content_fits(m.content),
    }
}

// ---------------------------------------------------------------------------
// Writing.
// ---------------------------------------------------------------------------

fn put_u32(buf: &mut Vec<u8>, v: u32)
    ensures
        final(buf)@ == old(buf)@ + enc_u32(v),
{
    let mut t = u32_to_le_bytes(v);
    buf.append(&mut t);
}

fn put_len(buf: &mut Vec<u8>, n: usize)
    ensures
        final(buf)@ == old(buf)@ + enc_len(n as nat),
{
    let mut t = u64_to_le_bytes(n as u64);
    buf.append(&mut t);
}

fn put_bytes(buf: &mut Vec<u8>, b: &[u8])
    ensures
        final(buf)@ == old(buf)@ + enc_bytes(b@),
        fits(b@.len()),
{
    put_len(buf, b.len());
    let mut t = slice_to_vec(b);
    buf.append(&mut t);
    assert(buf@ =~= old(buf)@ + enc_bytes(b@));
}

fn put_str(buf: &mut Vec<u8>, s: &str)
    ensures
        final(buf)@ == old(buf)@ + enc_str(s@),
        str_fits(s@),
{
    put_bytes(buf, s.as_bytes());
}

fn put_opt_str(buf: &mut Vec<u8>, o: &Option<String>)
    ensures
        final(buf)@ == old(buf)@ + enc_opt_str(opt_view(*o)),
        opt_str_fits(opt_view(*o)),
{
    match o {
        None => {
            buf.push(0u8);
            assert(buf@ =~= old(buf)@ + enc_opt_str(opt_view(*o)));
        },
        Some(s) => {
            buf.push(1u8);
            put_str(buf, s.as_str());
            assert(buf@ =~= old(buf)@ + enc_opt_str(opt_view(*o)));
        },
    }
}

fn put_content(buf: &mut Vec<u8>, c: &MessageType)
    ensures
        final(buf)@ == old(buf)@ + enc_content(c@),
        content_fits(c@),
{
    match c {
        MessageType::Text(s) => {
            put_u32(buf, 0);
            put_str(buf, s.as_str());
        },
        MessageType::File(s) => {
            put_u32(buf, 1);
            put_str(buf, s.as_str());
        },
    }
    assert(buf@ =~= old(buf)@ + enc_content(c@));
}

fn put_message(buf: &mut Vec<u8>, m: &Message)
    ensures
        final(buf)@ == old(buf)@ + enc_message(m@),
        content_fits(m@.content),
{
    put_u32(buf, m.from);
    put_u32(buf, m.chan);
    put_content(buf, &m.content);
    assert(buf@ =~= old(buf)@ + enc_message(m@));
}

fn put_history(buf: &mut Vec<u8>, ms: &Vec<Message>)
    ensures
        final(buf)@ == old(buf)@ + enc_len(ms@.len()) + enc_messages(messages_view(ms@)),
        fits(ms@.len()),
        messages_fit(messages_view(ms@)),
{
    put_len(buf, ms.len());
    let ghost start = buf@;
    let mut i: usize = 0;
    while i < ms.len()
        invariant
            i <= ms@.len(),
            buf@ == start + enc_messages(messages_view(ms@.subrange(0, i as int))),
            forall|j: int| 0 <= j < i ==> #[trigger] content_fits(ms@[j]@.content),
        decreases ms@.len() - i,
    {
        let ghost before = buf@;
        put_message(buf, &ms[i]);
        proof {
            let next = messages_view(ms@.subrange(0, i + 1));
            assert(next.drop_last() =~= messages_view(ms@.subrange(0, i as int)));
            assert(next.last() == ms@[i as int]@);
            assert(buf@ =~= start + enc_messages(next));
        }
        i = i + 1;
    }
    proof {
        assert(ms@.subrange(0, ms@.len() as int) =~= ms@);
        assert forall|j: int| 0 <= j < messages_view(ms@).len() implies #[trigger] content_fits(
            messages_view(ms@)[j].content,
        ) by {
            assert(content_fits(ms@[j]@.content));
        }
    }
}

/// The frame of a client request.
pub fn encode_client(m: &ClientMessage) -> (r: Vec<u8>)
    ensures
        r@ == enc_client(m@),
        client_fits(m@),
{
    let mut buf: Vec<u8> = Vec::new();
    match m {
        ClientMessage::SignUp { name, pass } => {
            put_u32(&mut buf, 0);
            put_str(&mut buf, name.as_str());
            put_str(&mut buf, pass.as_str());
        },
        ClientMessage::Login { name, pass } => {
            put_u32(&mut buf, 1);
            put_str(&mut buf, name.as_str());
            put_str(&mut buf, pass.as_str());
        },
        ClientMessage::Say { chan, text } => {
            put_u32(&mut buf, 2);
            put_u32(&mut buf, *chan);
            put_str(&mut buf, text.as_str());
        },
        ClientMessage::File { chan, ext, bytes } => {
            put_u32(&mut buf, 3);
            put_u32(&mut buf, *chan);
            put_str(&mut buf, ext.as_str());
            put_bytes(&mut buf, bytes.as_slice());
        },
    }
    assert(buf@ =~= enc_client(m@));
    buf
}

fn put_login(buf: &mut Vec<u8>, r: Result<u32, LoginError>)
    ensures
        final(buf)@ == old(buf)@ + enc_login(r),
{
    match r {
        Ok(id) => {
            put_u32(buf, 0);
            put_u32(buf, id);
        },
        Err(e) => {
            put_u32(buf, 1);
            let index: u32 = match e {
                LoginError::NameAlreadyExists => 0,
                LoginError::AlreadyLogged => 1,
                LoginError::WrongNameOrPass => 2,
            };
            put_u32(buf, index);
        },
    }
    assert(buf@ =~= old(buf)@ + enc_login(r));
}

/// The frame of a server message.
pub fn encode_server(m: &ServerMessage) -> (r: Vec<u8>)
    ensures
        r@ == enc_server(m@),
        server_fits(m@),
{
    let mut buf: Vec<u8> = Vec::new();
    match m {
        ServerMessage::Closed => {
            put_u32(&mut buf, 0);
        },
        ServerMessage::LoggedIn(r) => {
            put_u32(&mut buf, 1);
            put_login(&mut buf, *r);
        },
        ServerMessage::User(u) => {
            put_u32(&mut buf, 2);
            put_u32(&mut buf, u.id);
            put_str(&mut buf, u.name.as_str());
            put_opt_str(&mut buf, &u.avatar);
        },
        ServerMessage::Channel(c) => {
            put_u32(&mut buf, 3);
            put_u32(&mut buf, c.id);
            put_str(&mut buf, c.name.as_str());
            put_opt_str(&mut buf, &c.icon);
            put_history(&mut buf, &c.history);
        },
        ServerMessage::Message(msg) => {
            put_u32(&mut buf, 4);
            put_message(&mut buf, msg);
        },
    }
    assert(buf@ =~= enc_server(m@));
    buf
}


// ---------------------------------------------------------------------------
// Reading, as partial functions from a byte sequence and a position to a
// value and the position after it.
// ---------------------------------------------------------------------------

pub open spec fn parse_u8(s: Seq<u8>, p: int) -> Option<(u8, int)> {
    if 0 <= p < s.len() {
        Some((s[p], p + 1))
    } else {
        None
    }
}

pub open spec fn parse_u32(s: Seq<u8>, p: int) -> Option<(u32, int)> {
    if 0 <= p && p + 4 <= s.len() {
        Some((spec_u32_from_le_bytes(s.subrange(p, p + 4)), p + 4))
    } else {
        None
    }
}

pub open spec fn parse_u64(s: Seq<u8>, p: int) -> Option<(u64, int)> {
    if 0 <= p && p + 8 <= s.len() {
        Some((spec_u64_from_le_bytes(s.subrange(p, p + 8)), p + 8))
    } else {
        None
    }
}

pub open spec fn parse_bytes(s: Seq<u8>, p: int) -> Option<(Seq<u8>, int)> {
    match parse_u64(s, p) {
        Some((n, q)) => if q + n <= s.len() {
            Some((s.subrange(q, q + n), q + n))
        } else {
            None
        },
        None => None,
    }
}

pub open spec fn parse_str(s: Seq<u8>, p: int) -> Option<(Seq<char>, int)> {
    match parse_bytes(s, p) {
        Some((b, q)) => if valid_utf8(b) {
            Some((decode_utf8(b), q))
        } else {
            None
        },
        None => None,
    }
}

pub open spec fn parse_opt_str(s: Seq<u8>, p: int) -> Option<(Option<Seq<char>>, int)> {
    match parse_u8(s, p) {
        Some((flag, q)) => if flag == 0 {
            Some((None, q))
        } else if flag == 1 {
            match parse_str(s, q) {
                Some((v, r)) => Some((Some(v), r)),
                None => None,
            }
        } else {
            None
        },
        None => None,
    }
}

pub open spec fn parse_content(s: Seq<u8>, p: int) -> Option<(ContentView, int)> {
    match parse_u32(s, p) {
        Some((tag, q)) => if tag == 0 {
            match parse_str(s, q) {
                Some((v, r)) => Some((ContentView::Text(v), r)),
                None => None,
            }
        } else if tag == 1 {
            match parse_str(s, q) {
                Some((v, r)) => Some((ContentView::File(v), r)),
                None => None,
            }
        } else {
            None
        },
        None => None,
    }
}

pub open spec fn parse_message(s: Seq<u8>, p: int) -> Option<(MessageView, int)> {
    match parse_u32(s, p) {
        Some((from, q)) => match parse_u32(s, q) {
            Some((chan, r)) => match parse_content(s, r) {
                Some((content, t)) => Some((MessageView { from, chan, content }, t)),
                None => None,
            },
            None => None,
        },
        None => None,
    }
}

/// `n` messages one after another.
pub open spec fn parse_messages(s: Seq<u8>, p: int, n: nat) -> Option<(Seq<MessageView>, int)>
    decreases n,
{
    if n == 0 {
        Some((Seq::empty(), p))
    } else {
        match parse_messages(s, p, (n - 1) as nat) {
            Some((ms, q)) => match parse_message(s, q) {
                Some((m, r)) => Some((ms.push(m), r)),
                None => None,
            },
            None => None,
        }
    }
}

/// A count, then that many messages.
pub open spec fn parse_history(s: Seq<u8>, p: int) -> Option<(Seq<MessageView>, int)> {
    match parse_u64(s, p) {
        Some((n, q)) => parse_messages(s, q, n as nat),
        None => None,
    }
}

pub open spec fn login_error_of(index: u32) -> Option<LoginError> {
    if index == 0 {
        Some(LoginError::NameAlreadyExists)
    } else if index == 1 {
        Some(LoginError::AlreadyLogged)
    } else if index == 2 {
        Some(LoginError::WrongNameOrPass)
    } else {
        None
    }
}

pub open spec fn parse_login(s: Seq<u8>, p: int) -> Option<(Result<u32, LoginError>, int)> {
    match parse_u32(s, p) {
        Some((tag, q)) => if tag == 0 {
            match parse_u32(s, q) {
                Some((id, r)) => Some((Ok(id), r)),
                None => None,
            }
        } else if tag == 1 {
            match parse_u32(s, q) {
                Some((index, r)) => match login_error_of(index) {
                    Some(e) => Some((Err(e), r)),
                    None => None,
                },
                None => None,
            }
        } else {
            None
        },
        None => None,
    }
}

pub open spec fn parse_two_strs(s: Seq<u8>, p: int) -> Option<((Seq<char>, Seq<char>), int)> {
    match parse_str(s, p) {
        Some((a, q)) => match parse_str(s, q) {
            Some((b, r)) => Some(((a, b), r)),
            None => None,
        },
        None => None,
    }
}

/// The client request at the start of a frame.
pub open spec fn parse_client(s: Seq<u8>) -> Option<(ClientMessageView, int)> {
    match parse_u32(s, 0) {
        Some((tag, q)) => if tag == 0 {
            match parse_two_strs(s, q) {
                Some(((name, pass), r)) => Some((ClientMessageView::SignUp { name, pass }, r)),
                None => None,
            }
        } else if tag == 1 {
            match parse_two_strs(s, q) {
                Some(((name, pass), r)) => Some((ClientMessageView::Login { name, pass }, r)),
                None => None,
            }
        } else if tag == 2 {
            match parse_u32(s, q) {
                Some((chan, r)) => match parse_str(s, r) {
                    Some((text, t)) => Some((ClientMessageView::Say { chan, text }, t)),
                    None => None,
                },
                None => None,
            }
        } else if tag == 3 {
            match parse_u32(s, q) {
                Some((chan, r)) => match parse_str(s, r) {
                    Some((ext, t)) => match parse_bytes(s, t) {
                        Some((bytes, u)) => Some((ClientMessageView::File { chan, ext, bytes }, u)),
                        None => None,
                    },
                    None => None,
                },
                None => None,
            }
        } else {
            None
        },
        None => None,
    }
}

pub open spec fn parse_user(s: Seq<u8>, p: int) -> Option<(UserView, int)> {
    match parse_u32(s, p) {
        Some((id, q)) => match parse_str(s, q) {
            Some((name, r)) => match parse_opt_str(s, r) {
                Some((avatar, t)) => Some((UserView { id, name, avatar }, t)),
                None => None,
            },
            None => None,
        },
        None => None,
    }
}

pub open spec fn parse_channel(s: Seq<u8>, p: int) -> Option<(ChannelView, int)> {
    match parse_u32(s, p) {
        Some((id, q)) => match parse_str(s, q) {
            Some((name, r)) => match parse_opt_str(s, r) {
                Some((icon, t)) => match parse_history(s, t) {
                    Some((history, u)) => Some((ChannelView { id, name, icon, history }, u)),
                    None => None,
                },
                None => None,
            },
            None => None,
        },
        None => None,
    }
}

/// The server message at the start of a frame.
pub open spec fn parse_server(s: Seq<u8>) -> Option<(ServerMessageView, int)> {
    match parse_u32(s, 0) {
        Some((tag, q)) => if tag == 0 {
            Some((ServerMessageView::Closed, q))
        } else if tag == 1 {
            match parse_login(s, q) {
                Some((r, t)) => Some((ServerMessageView::LoggedIn(r), t)),
                None => None,
            }
        } else if tag == 2 {
            match parse_user(s, q) {
                Some((u, t)) => Some((ServerMessageView::User(u), t)),
                None => None,
            }
        } else if tag == 3 {
            match parse_channel(s, q) {
                Some((c, t)) => Some((ServerMessageView::Channel(c), t)),
                None => None,
            }
        } else if tag == 4 {
            match parse_message(s, q) {
                Some((m, t)) => Some((ServerMessageView::Message(m), t)),
                None => None,
            }
        } else {
            None
        },
        None => None,
    }
}


/// Relies on `std::str::from_utf8`: it accepts a byte slice exactly when the
/// bytes are well-formed UTF-8, and the accepted string is those same bytes.
#[verifier::external_body]
pub(crate) fn utf8_str(b: &[u8]) -> (r: Option<&str>)
    ensures
        r is Some <==> valid_utf8(b@),
        r matches Some(s) ==> s.spec_bytes() == b@,
{
    std::str::from_utf8(b).ok()
}

fn read_u8(b: &[u8], pos: usize) -> (r: Option<(u8, usize)>)
    ensures
        match parse_u8(b@, pos as int) {
            Some((v, q)) => r matches Some((t, e)) && t == v && e == q,
            None => r is None,
        },
{
    if pos < b.len() {
        Some((b[pos], pos + 1))
    } else {
        None
    }
}

fn read_u32(b: &[u8], pos: usize) -> (r: Option<(u32, usize)>)
    ensures
        match parse_u32(b@, pos as int) {
            Some((v, q)) => r matches Some((t, e)) && t == v && e == q,
            None => r is None,
        },
{
    if pos <= b.len() && b.len() - pos >= 4 {
        let v = u32_from_le_bytes(slice_subrange(b, pos, pos + 4));
        Some((v, pos + 4))
    } else {
        None
    }
}

fn read_u64(b: &[u8], pos: usize) -> (r: Option<(u64, usize)>)
    ensures
        match parse_u64(b@, pos as int) {
            Some((v, q)) => r matches Some((t, e)) && t == v && e == q,
            None => r is None,
        },
{
    if pos <= b.len() && b.len() - pos >= 8 {
        let v = u64_from_le_bytes(slice_subrange(b, pos, pos + 8));
        Some((v, pos + 8))
    } else {
        None
    }
}

fn read_bytes<'a>(b: &'a [u8], pos: usize) -> (r: Option<(&'a [u8], usize)>)
    ensures
        match parse_bytes(b@, pos as int) {
            Some((v, q)) => r matches Some((t, e)) && t@ == v && e == q,
            None => r is None,
        },
{
    match read_u64(b, pos) {
        Some((n, q)) => {
            if n <= (b.len() - q) as u64 {
                let e = q + n as usize;
                Some((slice_subrange(b, q, e), e))
            } else {
                None
            }
        },
        None => None,
    }
}

fn read_str(b: &[u8], pos: usize) -> (r: Option<(String, usize)>)
    ensures
        match parse_str(b@, pos as int) {
            Some((v, q)) => r matches Some((t, e)) && t@ == v && e == q,
            None => r is None,
        },
{
    match read_bytes(b, pos) {
        Some((raw, q)) => match utf8_str(raw) {
            Some(text) => Some((text.to_owned(), q)),
            None => None,
        },
        None => None,
    }
}

fn read_opt_str(b: &[u8], pos: usize) -> (r: Option<(Option<String>, usize)>)
    ensures
        match parse_opt_str(b@, pos as int) {
            Some((v, q)) => r matches Some((t, e)) && opt_view(t) == v && e == q,
            None => r is None,
        },
{
    match read_u8(b, pos) {
        Some((flag, q)) => {
            if flag == 0 {
                Some((None, q))
            } else if flag == 1 {
                match read_str(b, q) {
                    Some((v, e)) => Some((Some(v), e)),
                    None => None,
                }
            } else {
                None
            }
        },
        None => None,
    }
}

fn read_content(b: &[u8], pos: usize) -> (r: Option<(MessageType, usize)>)
    ensures
        match parse_content(b@, pos as int) {
            Some((v, q)) => r matches Some((t, e)) && t@ == v && e == q,
            None => r is None,
        },
{
    match read_u32(b, pos) {
        Some((tag, q)) => {
            if tag == 0 {
                match read_str(b, q) {
                    Some((v, e)) => Some((MessageType::Text(v), e)),
                    None => None,
                }
            } else if tag == 1 {
                match read_str(b, q) {
                    Some((v, e)) => Some((MessageType::File(v), e)),
                    None => None,
                }
            } else {
                None
            }
        },
        None => None,
    }
}

fn read_message(b: &[u8], pos: usize) -> (r: Option<(Message, usize)>)
    ensures
        match parse_message(b@, pos as int) {
            Some((v, q)) => r matches Some((t, e)) && t@ == v && e == q,
            None => r is None,
        },
{
    match read_u32(b, pos) {
        Some((from, q)) => match read_u32(b, q) {
            Some((chan, t)) => match read_content(b, t) {
                Some((content, e)) => Some((Message { from, chan, content }, e)),
                None => None,
            },
            None => None,
        },
        None => None,
    }
}

proof fn lemma_messages_fail(s: Seq<u8>, p: int, k: nat, n: nat)
    requires
        k <= n,
        parse_messages(s, p, k) is None,
    ensures
        parse_messages(s, p, n) is None,
    decreases n,
{
    if k < n {
        lemma_messages_fail(s, p, k, (n - 1) as nat);
    }
}

fn read_messages(b: &[u8], pos: usize, n: u64) -> (r: Option<(Vec<Message>, usize)>)
    ensures
        match parse_messages(b@, pos as int, n as nat) {
            Some((v, q)) => r matches Some((t, e)) && messages_view(t@) == v && e == q,
            None => r is None,
        },
{
    let mut out: Vec<Message> = Vec::new();
    let mut at = pos;
    let mut i: u64 = 0;
    assert(messages_view(out@) =~= Seq::<MessageView>::empty());
    while i < n
        invariant
            i <= n,
            parse_messages(b@, pos as int, i as nat) == Some((messages_view(out@), at as int)),
        decreases n - i,
    {
        match read_message(b, at) {
            Some((m, q)) => {
                proof {
                    assert(messages_view(out@.push(m)) =~= messages_view(out@).push(m@));
                }
                out.push(m);
                at = q;
                i = i + 1;
            },
            None => {
                proof {
                    lemma_messages_fail(b@, pos as int, (i + 1) as nat, n as nat);
                }
                return None;
            },
        }
    }
    Some((out, at))
}

fn read_history(b: &[u8], pos: usize) -> (r: Option<(Vec<Message>, usize)>)
    ensures
        match parse_history(b@, pos as int) {
            Some((v, q)) => r matches Some((t, e)) && messages_view(t@) == v && e == q,
            None => r is None,
        },
{
    match read_u64(b, pos) {
        Some((n, q)) => read_messages(b, q, n),
        None => None,
    }
}

fn read_login(b: &[u8], pos: usize) -> (r: Option<(Result<u32, LoginError>, usize)>)
    ensures
        match parse_login(b@, pos as int) {
            Some((v, q)) => r matches Some((t, e)) && t == v && e == q,
            None => r is None,
        },
{
    match read_u32(b, pos) {
        Some((tag, q)) => {
            if tag == 0 {
                match read_u32(b, q) {
                    Some((id, e)) => Some((Ok(id), e)),
                    None => None,
                }
            } else if tag == 1 {
                match read_u32(b, q) {
                    Some((index, e)) => {
                        if index == 0 {
                            Some((Err(LoginError::NameAlreadyExists), e))
                        } else if index == 1 {
                            Some((Err(LoginError::AlreadyLogged), e))
                        } else if index == 2 {
                            Some((Err(LoginError::WrongNameOrPass), e))
                        } else {
                            None
                        }
                    },
                    None => None,
                }
            } else {
                None
            }
        },
        None => None,
    }
}

fn read_two_strs(b: &[u8], pos: usize) -> (r: Option<(String, String, usize)>)
    ensures
        match parse_two_strs(b@, pos as int) {
            Some(((x, y), q)) => r matches Some((t, u, e)) && t@ == x && u@ == y && e == q,
            None => r is None,
        },
{
    match read_str(b, pos) {
        Some((x, q)) => match read_str(b, q) {
            Some((y, e)) => Some((x, y, e)),
            None => None,
        },
        None => None,
    }
}

/// Reads the client request a frame holds.
pub fn decode_client(b: &[u8]) -> (r: Result<ClientMessage, DecodeError>)
    ensures
        match parse_client(b@) {
            Some((v, _)) => r matches Ok(m) && m@ == v,
            None => r == Err::<ClientMessage, DecodeError>(DecodeError),
        },
{
    let (tag, q) = match read_u32(b, 0) {
        Some(x) => x,
        None => return Err(DecodeError),
    };
    if tag == 0 {
        match read_two_strs(b, q) {
            Some((name, pass, _)) => Ok(ClientMessage::SignUp { name, pass }),
            None => Err(DecodeError),
        }
    } else if tag == 1 {
        match read_two_strs(b, q) {
            Some((name, pass, _)) => Ok(ClientMessage::Login { name, pass }),
            None => Err(DecodeError),
        }
    } else if tag == 2 {
        match read_u32(b, q) {
            Some((chan, t)) => match read_str(b, t) {
                Some((text, _)) => Ok(ClientMessage::Say { chan, text }),
                None => Err(DecodeError),
            },
            None => Err(DecodeError),
        }
    } else if tag == 3 {
        match read_u32(b, q) {
            Some((chan, t)) => match read_str(b, t) {
                Some((ext, u)) => match read_bytes(b, u) {
                    Some((raw, _)) => Ok(ClientMessage::File { chan, ext, bytes: slice_to_vec(raw) }),
                    None => Err(DecodeError),
                },
                None => Err(DecodeError),
            },
            None => Err(DecodeError),
        }
    } else {
        Err(DecodeError)
    }
}

fn read_user(b: &[u8], pos: usize) -> (r: Option<(User, usize)>)
    ensures
        match parse_user(b@, pos as int) {
            Some((v, q)) => r matches Some((t, e)) && t@ == v && e == q,
            None => r is None,
        },
{
    match read_u32(b, pos) {
        Some((id, q)) => match read_str(b, q) {
            Some((name, t)) => match read_opt_str(b, t) {
                Some((avatar, e)) => Some((User { id, name, avatar }, e)),
                None => None,
            },
            None => None,
        },
        None => None,
    }
}

fn read_channel(b: &[u8], pos: usize) -> (r: Option<(Channel, usize)>)
    ensures
        match parse_channel(b@, pos as int) {
            Some((v, q)) => r matches Some((t, e)) && t@ == v && e == q,
            None => r is None,
        },
{
    match read_u32(b, pos) {
        Some((id, q)) => match read_str(b, q) {
            Some((name, t)) => match read_opt_str(b, t) {
                Some((icon, u)) => match read_history(b, u) {
                    Some((history, e)) => Some((Channel { id, name, icon, history }, e)),
                    None => None,
                },
                None => None,
            },
            None => None,
        },
        None => None,
    }
}

/// Reads the server message a frame holds.
pub fn decode_server(b: &[u8]) -> (r: Result<ServerMessage, DecodeError>)
    ensures
        match parse_server(b@) {
            Some((v, _)) => r matches Ok(m) && m@ == v,
            None => r == Err::<ServerMessage, DecodeError>(DecodeError),
        },
{
    let (tag, q) = match read_u32(b, 0) {
        Some(x) => x,
        None => return Err(DecodeError),
    };
    if tag == 0 {
        Ok(ServerMessage::Closed)
    } else if tag == 1 {
        match read_login(b, q) {
            Some((r, _)) => Ok(ServerMessage::LoggedIn(r)),
            None => Err(DecodeError),
        }
    } else if tag == 2 {
        match read_user(b, q) {
            Some((u, _)) => Ok(ServerMessage::User(u)),
            None => Err(DecodeError),
        }
    } else if tag == 3 {
        match read_channel(b, q) {
            Some((c, _)) => Ok(ServerMessage::Channel(c)),
            None => Err(DecodeError),
        }
    } else if tag == 4 {
        match read_message(b, q) {
            Some((m, _)) => Ok(ServerMessage::Message(m)),
            None => Err(DecodeError),
        }
    } else {
        Err(DecodeError)
    }
}

// ---------------------------------------------------------------------------
// Reading back what was written.
// ---------------------------------------------------------------------------

/// `e` stands in `s` from position `p` on.
pub open spec fn holds_at(s: Seq<u8>, p: int, e: Seq<u8>) -> bool {
    0 <= p && p + e.len() <= s.len() && s.subrange(p, p + e.len()) == e
}

proof fn lemma_split(s: Seq<u8>, p: int, a: Seq<u8>, b: Seq<u8>)
    requires
        holds_at(s, p, a + b),
    ensures
        holds_at(s, p, a),
        holds_at(s, p + a.len(), b),
{
    let whole = s.subrange(p, p + a.len() + b.len());
    assert forall|i: int| 0 <= i < a.len() implies s.subrange(p, p + a.len())[i] == a[i] by {
        assert(whole[i] == (a + b)[i]);
    }
    assert(s.subrange(p, p + a.len()) =~= a);
    assert forall|i: int| 0 <= i < b.len() implies s.subrange(
        p + a.len(),
        p + a.len() + b.len(),
    )[i] == b[i] by {
        assert(whole[a.len() + i] == (a + b)[a.len() + i]);
    }
    assert(s.subrange(p + a.len(), p + a.len() + b.len()) =~= b);
}

proof fn lemma_read_u32(s: Seq<u8>, p: int, v: u32)
    requires
        holds_at(s, p, enc_u32(v)),
    ensures
        enc_u32(v).len() == 4,
        parse_u32(s, p) == Some((v, p + 4)),
{
    lemma_auto_spec_u32_to_from_le_bytes();
}

proof fn lemma_read_len(s: Seq<u8>, p: int, n: nat)
    requires
        fits(n),
        holds_at(s, p, enc_len(n)),
    ensures
        enc_len(n).len() == 8,
        parse_u64(s, p) == Some((n as u64, p + 8)),
{
    lemma_auto_spec_u64_to_from_le_bytes();
}

proof fn lemma_read_bytes(s: Seq<u8>, p: int, b: Seq<u8>)
    requires
        fits(b.len()),
        holds_at(s, p, enc_bytes(b)),
    ensures
        parse_bytes(s, p) == Some((b, p + enc_bytes(b).len())),
{
    lemma_split(s, p, enc_len(b.len()), b);
    lemma_read_len(s, p, b.len());
}

proof fn lemma_read_str(s: Seq<u8>, p: int, t: Seq<char>)
    requires
        str_fits(t),
        holds_at(s, p, enc_str(t)),
    ensures
        parse_str(s, p) == Some((t, p + enc_str(t).len())),
{
    lemma_read_bytes(s, p, encode_utf8(t));
}

proof fn lemma_read_opt_str(s: Seq<u8>, p: int, o: Option<Seq<char>>)
    requires
        opt_str_fits(o),
        holds_at(s, p, enc_opt_str(o)),
    ensures
        parse_opt_str(s, p) == Some((o, p + enc_opt_str(o).len())),
{
    match o {
        None => {
            assert(s.subrange(p, p + 1)[0] == s[p]);
        },
        Some(t) => {
            lemma_split(s, p, seq![1u8], enc_str(t));
            assert(s.subrange(p, p + 1)[0] == s[p]);
            lemma_read_str(s, p + 1, t);
        },
    }
}

proof fn lemma_read_content(s: Seq<u8>, p: int, c: ContentView)
    requires
        content_fits(c),
        holds_at(s, p, enc_content(c)),
    ensures
        parse_content(s, p) == Some((c, p + enc_content(c).len())),
{
    match c {
        ContentView::Text(t) => {
            lemma_split(s, p, enc_u32(0), enc_str(t));
            lemma_read_u32(s, p, 0);
            lemma_read_str(s, p + 4, t);
        },
        ContentView::File(t) => {
            lemma_split(s, p, enc_u32(1), enc_str(t));
            lemma_read_u32(s, p, 1);
            lemma_read_str(s, p + 4, t);
        },
    }
}

proof fn lemma_read_message(s: Seq<u8>, p: int, m: MessageView)
    requires
        content_fits(m.content),
        holds_at(s, p, enc_message(m)),
    ensures
        parse_message(s, p) == Some((m, p + enc_message(m).len())),
{
    lemma_split(s, p, enc_u32(m.from) + enc_u32(m.chan), enc_content(m.content));
    lemma_split(s, p, enc_u32(m.from), enc_u32(m.chan));
    lemma_read_u32(s, p, m.from);
    lemma_read_u32(s, p + 4, m.chan);
    lemma_read_content(s, p + 8, m.content);
}

proof fn lemma_read_messages(s: Seq<u8>, p: int, ms: Seq<MessageView>)
    requires
        messages_fit(ms),
        holds_at(s, p, enc_messages(ms)),
    ensures
        parse_messages(s, p, ms.len()) == Some((ms, p + enc_messages(ms).len())),
    decreases ms.len(),
{
    if ms.len() > 0 {
        let init = ms.drop_last();
        lemma_split(s, p, enc_messages(init), enc_message(ms.last()));
        assert(messages_fit(init)) by {
            assert forall|i: int| 0 <= i < init.len() implies #[trigger] content_fits(
                init[i].content,
            ) by {
                assert(content_fits(ms[i].content));
            }
        }
        assert(content_fits(ms[ms.len() - 1].content));
        lemma_read_messages(s, p, init);
        lemma_read_message(s, p + enc_messages(init).len(), ms.last());
        assert(init.push(ms.last()) =~= ms);
    } else {
        assert(ms =~= Seq::<MessageView>::empty());
    }
}

proof fn lemma_read_history(s: Seq<u8>, p: int, ms: Seq<MessageView>)
    requires
        fits(ms.len()),
        messages_fit(ms),
        holds_at(s, p, enc_len(ms.len()) + enc_messages(ms)),
    ensures
        enc_len(ms.len()).len() == 8,
        parse_history(s, p) == Some((ms, p + 8 + enc_messages(ms).len())),
{
    lemma_split(s, p, enc_len(ms.len()), enc_messages(ms));
    lemma_read_len(s, p, ms.len());
    lemma_read_messages(s, p + 8, ms);
}

proof fn lemma_read_login(s: Seq<u8>, p: int, r: Result<u32, LoginError>)
    requires
        holds_at(s, p, enc_login(r)),
    ensures
        enc_login(r).len() == 8,
        parse_login(s, p) == Some((r, p + 8)),
{
    match r {
        Ok(id) => {
            lemma_split(s, p, enc_u32(0), enc_u32(id));
            lemma_read_u32(s, p, 0);
            lemma_read_u32(s, p + 4, id);
        },
        Err(e) => {
            lemma_split(s, p, enc_u32(1), enc_u32(error_index(e)));
            lemma_read_u32(s, p, 1);
            lemma_read_u32(s, p + 4, error_index(e));
        },
    }
}

proof fn lemma_read_user(s: Seq<u8>, p: int, u: UserView)
    requires
        str_fits(u.name),
        opt_str_fits(u.avatar),
        holds_at(s, p, enc_user(u)),
    ensures
        parse_user(s, p) == Some((u, p + enc_user(u).len())),
{
    lemma_split(s, p, enc_u32(u.id) + enc_str(u.name), enc_opt_str(u.avatar));
    lemma_split(s, p, enc_u32(u.id), enc_str(u.name));
    lemma_read_u32(s, p, u.id);
    lemma_read_str(s, p + 4, u.name);
    lemma_read_opt_str(s, p + 4 + enc_str(u.name).len(), u.avatar);
}

proof fn lemma_read_channel(s: Seq<u8>, p: int, c: ChannelView)
    requires
        str_fits(c.name),
        opt_str_fits(c.icon),
        fits(c.history.len()),
        messages_fit(c.history),
        holds_at(s, p, enc_channel(c)),
    ensures
        parse_channel(s, p) == Some((c, p + enc_channel(c).len())),
{
    let head = enc_u32(c.id) + enc_str(c.name) + enc_opt_str(c.icon);
    let tail = enc_len(c.history.len()) + enc_messages(c.history);
    assert(enc_channel(c) =~= head + tail);
    lemma_split(s, p, head, tail);
    lemma_split(s, p, enc_u32(c.id) + enc_str(c.name), enc_opt_str(c.icon));
    lemma_split(s, p, enc_u32(c.id), enc_str(c.name));
    lemma_read_u32(s, p, c.id);
    lemma_read_str(s, p + 4, c.name);
    lemma_read_opt_str(s, p + 4 + enc_str(c.name).len(), c.icon);
    lemma_read_history(s, p + head.len(), c.history);
}

/// Decoding the encoding of any client request, followed by any bytes at
/// all, gives back that request and tells where it ended.
pub proof fn lemma_client_round_trip(m: ClientMessageView, rest: Seq<u8>)
    requires
        client_fits(m),
    ensures
        parse_client(enc_client(m) + rest) == Some((m, enc_client(m).len() as int)),
{
    let e = enc_client(m);
    let s = e + rest;
    assert(s.subrange(0, e.len() as int) =~= e);
    match m {
        ClientMessageView::SignUp { name, pass } => {
            lemma_split(s, 0, enc_u32(0) + enc_str(name), enc_str(pass));
            lemma_split(s, 0, enc_u32(0), enc_str(name));
            lemma_read_u32(s, 0, 0);
            lemma_read_str(s, 4, name);
            lemma_read_str(s, 4 + enc_str(name).len() as int, pass);
        },
        ClientMessageView::Login { name, pass } => {
            lemma_split(s, 0, enc_u32(1) + enc_str(name), enc_str(pass));
            lemma_split(s, 0, enc_u32(1), enc_str(name));
            lemma_read_u32(s, 0, 1);
            lemma_read_str(s, 4, name);
            lemma_read_str(s, 4 + enc_str(name).len() as int, pass);
        },
        ClientMessageView::Say { chan, text } => {
            lemma_split(s, 0, enc_u32(2) + enc_u32(chan), enc_str(text));
            lemma_split(s, 0, enc_u32(2), enc_u32(chan));
            lemma_read_u32(s, 0, 2);
            lemma_read_u32(s, 4, chan);
            lemma_read_str(s, 8, text);
        },
        ClientMessageView::File { chan, ext, bytes } => {
            lemma_split(s, 0, enc_u32(3) + enc_u32(chan) + enc_str(ext), enc_bytes(bytes));
            lemma_split(s, 0, enc_u32(3) + enc_u32(chan), enc_str(ext));
            lemma_split(s, 0, enc_u32(3), enc_u32(chan));
            lemma_read_u32(s, 0, 3);
            lemma_read_u32(s, 4, chan);
            lemma_read_str(s, 8, ext);
            lemma_read_bytes(s, 8 + enc_str(ext).len() as int, bytes);
        },
    }
}

/// Decoding the encoding of any server message, followed by any bytes at
/// all, gives back that message and tells where it ended.
pub proof fn lemma_server_round_trip(m: ServerMessageView, rest: Seq<u8>)
    requires
        server_fits(m),
    ensures
        parse_server(enc_server(m) + rest) == Some((m, enc_server(m).len() as int)),
{
    let e = enc_server(m);
    let s = e + rest;
    assert(s.subrange(0, e.len() as int) =~= e);
    match m {
        ServerMessageView::Closed => {
            lemma_read_u32(s, 0, 0);
        },
        ServerMessageView::LoggedIn(r) => {
            lemma_split(s, 0, enc_u32(1), enc_login(r));
            lemma_read_u32(s, 0, 1);
            lemma_read_login(s, 4, r);
        },
        ServerMessageView::User(u) => {
            lemma_split(s, 0, enc_u32(2), enc_user(u));
            lemma_read_u32(s, 0, 2);
            lemma_read_user(s, 4, u);
        },
        ServerMessageView::Channel(c) => {
            lemma_split(s, 0, enc_u32(3), enc_channel(c));
            lemma_read_u32(s, 0, 3);
            lemma_read_channel(s, 4, c);
        },
        ServerMessageView::Message(msg) => {
            lemma_split(s, 0, enc_u32(4), enc_message(msg));
            lemma_read_u32(s, 0, 4);
            lemma_read_message(s, 4, msg);
        },
    }
}
} // verus!
