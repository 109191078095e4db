use chat_core::{
    ChatMessage, ChatServer, Command, Delivery, HandshakeError, HistoryStore, MessageType,
    RegisterError, Registry, join_from, parse_command, should_deliver, starts_with_slash,
    valid_username,
};

fn s(x: &str) -> String {
    x.to_string()
}

fn connect(server: &mut ChatServer, name: &str) -> Vec<Delivery> {
    let (n, out) = server.connect(&s(name)).expect("handshake accepted");
    assert_eq!(n, name.trim());
    out
}

fn private_parts(d: &Delivery) -> (&str, &ChatMessage) {
    match d {
        Delivery::Private { to, msg } => (to.as_str(), msg),
        _ => panic!("expected a private delivery"),
    }
}

fn broadcast_msg(d: &Delivery) -> &ChatMessage {
    match d {
        Delivery::Broadcast { msg } => msg,
        _ => panic!("expected a broadcast"),
    }
}

fn contents(msgs: &[ChatMessage]) -> Vec<String> {
    msgs.iter().map(|m| m.content.clone()).collect()
}

#[test]
fn scenario_alice_bob_admin() {
    let mut server = ChatServer::new();
    let out = connect(&mut server, "alice");
    assert_eq!(out.len(), 1);
    let join = broadcast_msg(&out[0]);
    assert_eq!(join.msg_type, MessageType::UserJoin);
    assert_eq!(join.content, "alice joined room 'general'");

    let out = server.handle_line(&s("alice"), &s("hello\n"));
    assert_eq!(out.len(), 1);
    let chat = broadcast_msg(&out[0]);
    assert_eq!(chat.msg_type, MessageType::Chat);
    assert_eq!(chat.username, "alice");
    assert_eq!(chat.content, "hello");
    assert_eq!(chat.room, "general");
    let hist = server.history.snapshot(&s("general"));
    let chats: Vec<&ChatMessage> = hist.iter().filter(|m| m.msg_type == MessageType::Chat).collect();
    assert_eq!(chats.len(), 1);
    assert_eq!(chats[0].username, "alice");
    assert_eq!(chats[0].content, "hello");

    connect(&mut server, "bob");
    let before = server.history.snapshot(&s("general"));
    let out = server.handle_line(&s("bob"), &s("/join general"));
    assert_eq!(out.len(), before.len() + 2);
    assert_eq!(broadcast_msg(&out[0]).msg_type, MessageType::UserLeave);
    let replayed: Vec<ChatMessage> = out[1..out.len() - 1]
        .iter()
        .map(|d| {
            let (to, m) = private_parts(d);
            assert_eq!(to, "bob");
            m.duplicate()
        })
        .collect();
    assert_eq!(contents(&replayed), contents(&before));
    assert!(replayed.iter().any(|m| m.msg_type == MessageType::Chat && m.content == "hello"));
    let change = broadcast_msg(&out[out.len() - 1]);
    assert_eq!(change.msg_type, MessageType::RoomChange);
    assert_eq!(change.room, "general");
    assert_eq!(change.content, "bob joined room 'general'");

    let hist_before = server.history.snapshot(&s("general"));
    let out = server.handle_line(&s("alice"), &s("/msg bob hi"));
    assert_eq!(out.len(), 2);
    let (to0, pm0) = private_parts(&out[0]);
    let (to1, pm1) = private_parts(&out[1]);
    assert_eq!(to0, "bob");
    assert_eq!(to1, "alice");
    for pm in [pm0, pm1] {
        assert_eq!(pm.msg_type, MessageType::PrivateMessage);
        assert_eq!(pm.recipient.as_deref(), Some("bob"));
        assert_eq!(pm.username, "alice");
        assert_eq!(pm.content, "hi");
    }
    assert_eq!(pm0.id, pm1.id);
    let hist_after = server.history.snapshot(&s("general"));
    assert_eq!(contents(&hist_after), contents(&hist_before));

    connect(&mut server, "admin");
    let out = server.handle_line(&s("admin"), &s("/kick bob"));
    assert_eq!(out.len(), 3);
    let (to, notice) = private_parts(&out[0]);
    assert_eq!(to, "bob");
    assert_eq!(notice.content, "You have been kicked.");
    assert!(matches!(&out[1], Delivery::Close { user } if user == "bob"));
    let ann = broadcast_msg(&out[2]);
    assert_eq!(ann.msg_type, MessageType::System);
    assert_eq!(ann.content, "admin kicked bob");
    assert_eq!(ann.room, "general");
    assert!(!server.registry.contains(&s("bob")));
    let users = server.registry.users_in(&s("general"));
    assert_eq!(users, vec![s("alice"), s("admin")]);
    assert!(server.disconnect(&s("bob")).is_empty());
}

#[test]
fn duplicate_name_is_taken_until_teardown() {
    let mut server = ChatServer::new();
    connect(&mut server, "carol");
    match server.connect(&s("carol")) {
        Err(e) => {
            assert_eq!(e, HandshakeError::UsernameTaken);
            assert_eq!(e.line(), "Error: Username taken");
        }
        Ok(_) => panic!("duplicate accepted"),
    }
    let out = server.disconnect(&s("carol"));
    assert_eq!(out.len(), 1);
    let leave = broadcast_msg(&out[0]);
    assert_eq!(leave.msg_type, MessageType::UserLeave);
    assert_eq!(leave.content, "carol disconnected");
    assert_eq!(leave.room, "general");
    connect(&mut server, "carol");
}

#[test]
fn registry_register_and_unregister() {
    let mut reg = Registry::new();
    assert_eq!(reg.register(&s("dave"), &s("general")), Ok(()));
    assert_eq!(reg.register(&s("dave"), &s("other")), Err(RegisterError::UsernameTaken));
    assert_eq!(reg.room_of(&s("dave")), Some(s("general")));
    assert!(reg.set_room(&s("dave"), &s("lobby")));
    assert_eq!(reg.room_of(&s("dave")), Some(s("lobby")));
    assert!(!reg.set_room(&s("erin"), &s("lobby")));
    assert_eq!(reg.unregister(&s("dave")), Some(s("lobby")));
    assert_eq!(reg.unregister(&s("dave")), None);
    assert_eq!(reg.register(&s("dave"), &s("general")), Ok(()));
}

#[test]
fn history_keeps_newest_fifty() {
    let mut hist = HistoryStore::new();
    let room = s("general");
    for i in 0..60 {
        hist.append(&room, ChatMessage::chat(s("u"), format!("m{}", i), room.clone()));
    }
    let snap = hist.snapshot(&room);
    assert_eq!(snap.len(), 50);
    let expected: Vec<String> = (10..60).map(|i| format!("m{}", i)).collect();
    assert_eq!(contents(&snap), expected);
    assert!(hist.snapshot(&s("elsewhere")).is_empty());
}

#[test]
fn history_below_cap_keeps_all() {
    let mut hist = HistoryStore::new();
    let room = s("r");
    for i in 0..50 {
        hist.append(&room, ChatMessage::chat(s("u"), format!("m{}", i), room.clone()));
    }
    assert_eq!(hist.snapshot(&room).len(), 50);
    assert_eq!(hist.snapshot(&room)[0].content, "m0");
}

#[test]
fn bus_filter_follows_room() {
    let mut server = ChatServer::new();
    connect(&mut server, "alice");
    let chat = ChatMessage::chat(s("x"), s("t"), s("general"));
    assert!(server.delivers_to(&s("alice"), &chat));
    server.handle_line(&s("alice"), &s("/join lobby"));
    assert!(!server.delivers_to(&s("alice"), &chat));
    let lobby = ChatMessage::chat(s("x"), s("t"), s("lobby"));
    assert!(server.delivers_to(&s("alice"), &lobby));
    assert!(!server.delivers_to(&s("nobody"), &lobby));
    let pm = ChatMessage::private(s("x"), s("alice"), s("t"));
    assert!(!should_deliver(&pm, &s("private")));
    assert!(should_deliver(&lobby, &s("lobby")));
}

#[test]
fn private_to_unknown_user() {
    let mut server = ChatServer::new();
    connect(&mut server, "alice");
    let out = server.handle_line(&s("alice"), &s("/w ghost hello there"));
    assert_eq!(out.len(), 1);
    let (to, m) = private_parts(&out[0]);
    assert_eq!(to, "alice");
    assert_eq!(m.msg_type, MessageType::Error);
    assert_eq!(m.content, "User not found");
}

#[test]
fn private_text_joins_words() {
    let mut server = ChatServer::new();
    connect(&mut server, "alice");
    connect(&mut server, "bob");
    let out = server.handle_line(&s("alice"), &s("  /msg   bob  good   morning  "));
    assert_eq!(out.len(), 2);
    assert_eq!(private_parts(&out[0]).1.content, "good morning");
}

#[test]
fn join_replays_room_history_once() {
    let mut server = ChatServer::new();
    connect(&mut server, "alice");
    connect(&mut server, "bob");
    server.handle_line(&s("alice"), &s("/join lobby"));
    server.handle_line(&s("alice"), &s("one"));
    server.handle_line(&s("alice"), &s("two"));
    let snap = server.history.snapshot(&s("lobby"));
    let out = server.handle_line(&s("bob"), &s("/join lobby"));
    let queued: Vec<ChatMessage> = out
        .iter()
        .filter_map(|d| match d {
            Delivery::Private { to, msg } if to == "bob" => Some(msg.duplicate()),
            _ => None,
        })
        .collect();
    assert_eq!(contents(&queued), contents(&snap));
    assert_eq!(contents(&queued)[1..], [s("one"), s("two")]);
    let next = server.handle_line(&s("bob"), &s("three"));
    assert_eq!(next.len(), 1);
    assert_eq!(server.registry.room_of(&s("bob")), Some(s("lobby")));
}

#[test]
fn users_lists_current_room() {
    let mut server = ChatServer::new();
    connect(&mut server, "alice");
    connect(&mut server, "bob");
    connect(&mut server, "cy");
    server.handle_line(&s("cy"), &s("/join lobby"));
    let out = server.handle_line(&s("alice"), &s("/users"));
    assert_eq!(out.len(), 1);
    let (to, m) = private_parts(&out[0]);
    assert_eq!(to, "alice");
    assert_eq!(m.msg_type, MessageType::System);
    assert_eq!(m.content, "Users in general: alice, bob");
}

#[test]
fn command_errors() {
    let mut server = ChatServer::new();
    connect(&mut server, "alice");
    let cases = [
        ("/join", "Usage: /join <room>"),
        ("/msg bob", "Usage: /msg <user> <text>"),
        ("/dance", "Unknown command"),
    ];
    for (line, text) in cases {
        let out = server.handle_line(&s("alice"), &s(line));
        assert_eq!(out.len(), 1);
        let (to, m) = private_parts(&out[0]);
        assert_eq!(to, "alice");
        assert_eq!(m.msg_type, MessageType::Error);
        assert_eq!(m.content, text);
        assert_eq!(m.room, "global");
    }
    assert!(server.handle_line(&s("alice"), &s("   ")).is_empty());
    assert!(server.handle_line(&s("alice"), &s("/kick")).is_empty());
}

#[test]
fn kick_needs_admin() {
    let mut server = ChatServer::new();
    connect(&mut server, "alice");
    connect(&mut server, "bob");
    assert!(server.handle_line(&s("alice"), &s("/kick bob")).is_empty());
    assert!(server.registry.contains(&s("bob")));
    connect(&mut server, "admin");
    assert!(server.handle_line(&s("admin"), &s("/kick ghost")).is_empty());
}

#[test]
fn handshake_validation() {
    let mut server = ChatServer::new();
    for bad in ["", "   ", "abcdefghijklmnop", "bad name", "semi;colon"] {
        match server.connect(&s(bad)) {
            Err(e) => {
                assert_eq!(e, HandshakeError::InvalidUsername);
                assert_eq!(e.line(), "Error: Invalid username (alphanumeric, max 15)");
            }
            Ok(_) => panic!("accepted {:?}", bad),
        }
    }
    let (name, _) = server.connect(&s("  zed15  \n")).unwrap();
    assert_eq!(name, "zed15");
    assert!(valid_username(&s("abcdefghijklmno")));
    assert!(!valid_username(&s("abc!")));
}

#[test]
fn parse_and_join_helpers() {
    assert!(matches!(parse_command(&s("  hi there ")), Command::Chat(t) if t == "hi there"));
    assert!(matches!(parse_command(&s("/join  lobby")), Command::Join(r) if r == "lobby"));
    assert!(matches!(parse_command(&s("/users")), Command::Users));
    assert!(matches!(parse_command(&s("")), Command::Empty));
    assert!(starts_with_slash(&s("/x")));
    assert!(!starts_with_slash(&s("x/")));
    let ws = vec![s("a"), s("b"), s("c")];
    assert_eq!(join_from(&ws, 0, ", "), "a, b, c");
    assert_eq!(join_from(&ws, 1, " "), "b c");
    assert_eq!(join_from(&ws, 3, " "), "");
}

#[test]
fn message_constructors_and_time() {
    let a = ChatMessage::system(s("note"), s("general"));
    let b = ChatMessage::error(s("bad"));
    assert_eq!(a.username, "System");
    assert_eq!(b.username, "Error");
    assert_eq!(b.room, "global");
    assert!(!a.id.is_empty());
    assert_ne!(a.id, b.id);
    assert!(a.timestamp > 0);
    let mut m = ChatMessage::chat(s("u"), s("c"), s("r"));
    m.timestamp = 3_723_000;
    assert_eq!(m.format_time(), "01:02");
    m.timestamp = 86_400_000 + 23 * 3_600_000 + 59 * 60_000 + 59_999;
    assert_eq!(m.format_time(), "23:59");
    let p = ChatMessage::private(s("a"), s("b"), s("c"));
    assert_eq!(p.room, "private");
    assert_eq!(p.recipient, Some(s("b")));
    assert!(ChatMessage::chat(s("u"), s("c"), s("r")).recipient.is_none());
}

#[test]
fn users_follow_join() {
    let mut server = ChatServer::new();
    connect(&mut server, "alice");
    connect(&mut server, "bob");
    server.handle_line(&s("bob"), &s("/join lobby"));
    assert_eq!(server.registry.users_in(&s("lobby")), vec![s("bob")]);
    assert_eq!(server.registry.users_in(&s("general")), vec![s("alice")]);
    let out = server.handle_line(&s("bob"), &s("/users"));
    assert_eq!(private_parts(&out[0]).1.content, "Users in lobby: bob");
}
