use vstd::prelude::*;
use crate::history::{capped, HistoryStore};
use crate::message::{ChatMessage, MessageType};
use crate::registry::{Registry, RegisterError};
use crate::text::{
    is_command, join_from, joined, plain_name, starts_with_slash, trim_of, trimmed, valid_name,
    valid_username, words, words_of,
};

verus! {

/// The room every session starts in.
pub open spec fn default_room() -> Seq<char> {
    "general"@
}

/// The one name allowed to kick other sessions.
pub open spec fn admin_name() -> Seq<char> {
    "admin"@
}

/// What the caller must do with one outgoing message or decision.
pub enum Delivery {
    /// Enqueue `msg` on the private queue of the session named `to`.
    Private { to: String, msg: ChatMessage },
    /// Publish `msg` on the broadcast bus.
    Broadcast { msg: ChatMessage },
    /// End the session named `user`.
    Close { user: String },
}

impl Delivery {
    /// The message carried, for a private or broadcast delivery.
    pub open spec fn msg(self) -> ChatMessage {
        match self {
            Delivery::Private { msg, .. } => msg,
            Delivery::Broadcast { msg } => msg,
            Delivery::Close { .. } => arbitrary(),
        }
    }

    /// Enqueues exactly `m` for the session named `to`.
    pub open spec fn private_of(self, to: Seq<char>, m: ChatMessage) -> bool {
        match self {
            Delivery::Private { to: t, msg } => t@ == to && msg == m,
            _ => false,
        }
    }

    /// Enqueues, for the session named `to`, a message with these fields.
    pub open spec fn private_with(
        self,
        to: Seq<char>,
        username: Seq<char>,
        content: Seq<char>,
        room: Seq<char>,
        kind: MessageType,
        recipient: Option<Seq<char>>,
    ) -> bool {
        match self {
            Delivery::Private { to: t, msg } => t@ == to && msg.has_fields(
                username,
                content,
                room,
                kind,
                recipient,
            ),
            _ => false,
        }
    }

    /// Publishes a message with these fields on the bus.
    pub open spec fn broadcast_with(
        self,
        username: Seq<char>,
        content: Seq<char>,
        room: Seq<char>,
        kind: MessageType,
    ) -> bool {
        match self {
            Delivery::Broadcast { msg } => msg.has_fields(username, content, room, kind, None),
            _ => false,
        }
    }

    /// Ends the session named `user`.
    pub open spec fn close_of(self, user: Seq<char>) -> bool {
        match self {
            Delivery::Close { user: u } => u@ == user,
            _ => false,
        }
    }
}

/// Why a connection was turned away at the handshake.
#[derive(Debug, Clone, Copy, PartialEq, Eq, Structural)]
pub enum HandshakeError {
    InvalidUsername,
    UsernameTaken,
}

impl HandshakeError {
    /// The raw line sent to the peer before the connection is closed.
    pub fn line(&self) -> (r: String)
        ensures
            *self == HandshakeError::InvalidUsername ==> r@
                == "Error: Invalid username (alphanumeric, max 15)"@,
            *self == HandshakeError::UsernameTaken ==> r@ == "Error: Username taken"@,
    {
        match self {
            HandshakeError::InvalidUsername => "Error: Invalid username (alphanumeric, max 15)".to_owned(),
            HandshakeError::UsernameTaken => "Error: Username taken".to_owned(),
        }
    }
}

/// Whether a bus message is shown to a session in `room`: private messages
/// never travel on the bus, every other kind only to its own room.
pub open spec fn visible(m: ChatMessage, room: Seq<char>) -> bool {
    m.msg_type != MessageType::PrivateMessage && m.room@ == room
}

/// Whether the bus hands `m` on to the session named `user`.
pub open spec fn bus_reaches(reg: Registry, user: Seq<char>, m: ChatMessage) -> bool {
    reg.has(user) && visible(m, reg.room(user))
}

/// `after` is `before` with `m` added to the history of `room` alone.
pub open spec fn appended(before: HistoryStore, after: HistoryStore, room: Seq<char>, m: ChatMessage) -> bool {
    &&& after.wf()
    &&& after.log(room) == capped(before.log(room).push(m))
    &&& forall|other: Seq<char>| other != room ==> #[trigger] after.log(other) == before.log(other)
}

/// `out[start..start + msgs.len()]` enqueues `msgs`, in order, for `to`.
pub open spec fn replays(out: Seq<Delivery>, start: int, to: Seq<char>, msgs: Seq<ChatMessage>) -> bool {
    &&& 0 <= start
    &&& start + msgs.len() <= out.len()
    &&& forall|i: int| 0 <= i < msgs.len() ==> #[trigger] out[start + i].private_of(to, msgs[i])
}

/// Text of a join announcement.
pub open spec fn joined_text(user: Seq<char>, room: Seq<char>) -> Seq<char> {
    user + " joined room '"@ + room + "'"@
}

/// A parsed input line.
pub enum Command {
    /// Blank line: ignored.
    Empty,
    /// Plain text for the current room.
    Chat(String),
    /// `/join <room>`.
    Join(String),
    /// `/msg <user> <text…>` or `/w <user> <text…>`.
    Msg(String, String),
    /// `/users`.
    Users,
    /// `/kick <user>`.
    Kick(String),
    /// `/kick` with no target: ignored.
    KickNobody,
    /// A command with too few arguments; holds its usage line.
    Usage(String),
    /// Any other `/` word.
    Unknown,
}

/// Usage line of `/join`.
pub open spec fn join_usage() -> Seq<char> {
    "Usage: /join <room>"@
}

/// Usage line of `/msg`.
pub open spec fn msg_usage() -> Seq<char> {
    "Usage: /msg <user> <text>"@
}

/// What the line `line` asks for.
pub open spec fn parses_to(line: Seq<char>, c: Command) -> bool {
    let t = trim_of(line);
    let ws = words_of(t);
    if t.len() == 0 {
        c is Empty
    } else if !is_command(t) {
        match c {
            Command::Chat(s) => s@ == t,
            _ => false,
        }
    } else if ws.len() > 0 && ws[0] == "/join"@ {
        if ws.len() < 2 {
            match c {
                Command::Usage(u) => u@ == join_usage(),
                _ => false,
            }
        } else {
            match c {
                Command::Join(r) => r@ == ws[1],
                _ => false,
            }
        }
    } else if ws.len() > 0 && (ws[0] == "/msg"@ || ws[0] == "/w"@) {
        if ws.len() < 3 {
            match c {
                Command::Usage(u) => u@ == msg_usage(),
                _ => false,
            }
        } else {
            match c {
                Command::Msg(to, text) => to@ == ws[1] && text@ == joined(
                    ws.subrange(2, ws.len() as int),
                    " "@,
                ),
                _ => false,
            }
        }
    } else if ws.len() > 0 && ws[0] == "/users"@ {
        c is Users
    } else if ws.len() > 0 && ws[0] == "/kick"@ {
        if ws.len() > 1 {
            match c {
                Command::Kick(u) => u@ == ws[1],
                _ => false,
            }
        } else {
            c is KickNobody
        }
    } else {
        c is Unknown
    }
}

/// Reads one input line as a command or as chat text.
pub fn parse_command(line: &String) -> (c: Command)
    ensures
        parses_to(line@, c),
{
    let t = trimmed(line);
    if t.as_str().unicode_len() == 0 {
        return Command::Empty;
    }
    if !starts_with_slash(&t) {
        return Command::Chat(t);
    }
    let ws = words(&t);
    let ghost views = ws@.map_values(|w: String| w@);
    if ws.len() == 0 {
        return Command::Unknown;
    }
    assert(views[0] == ws@[0]@);
    let head = &ws[0];
    if *head == "/join".to_owned() {
        if ws.len() < 2 {
            Command::Usage("Usage: /join <room>".to_owned())
        } else {
            Command::Join(ws[1].clone())
        }
    } else if *head == "/msg".to_owned() || *head == "/w".to_owned() {
        if ws.len() < 3 {
            Command::Usage("Usage: /msg <user> <text>".to_owned())
        } else {
            let text = join_from(&ws, 2, " ");
            Command::Msg(ws[1].clone(), text)
        }
    } else if *head == "/users".to_owned() {
        Command::Users
    } else if *head == "/kick".to_owned() {
        if ws.len() > 1 {
            Command::Kick(ws[1].clone())
        } else {
            Command::KickNobody
        }
    } else {
        Command::Unknown
    }
}

/// Whether a bus message is shown to a session in `room`.
pub fn should_deliver(msg: &ChatMessage, room: &String) -> (r: bool)
    ensures
        r == visible(*msg, room@),
{
    match msg.msg_type {
        MessageType::PrivateMessage => false,
        _ => msg.room == *room,
    }
}

/// Shared state of the server: live sessions and room histories.
pub struct ChatServer {
    pub registry: Registry,
    pub history: HistoryStore,
}

impl ChatServer {
    pub open spec fn wf(&self) -> bool {
        self.registry.wf() && self.history.wf()
    }

    /// The room a session's input goes to: its own, or the default room for
    /// a name with no session.
    pub open spec fn room_for(self, user: Seq<char>) -> Seq<char> {
        if self.registry.has(user) {
            self.registry.room(user)
        } else {
            default_room()
        }
    }

    /// Plain text `text` of `user` went to `room`: published and kept in history.
    pub open spec fn chatted(
        before: ChatServer,
        after: ChatServer,
        user: Seq<char>,
        text: Seq<char>,
        room: Seq<char>,
        out: Seq<Delivery>,
    ) -> bool {
        &&& out.len() == 1
        &&& out[0].broadcast_with(user, text, room, MessageType::Chat)
        &&& after.registry == before.registry
        &&& appended(before.history, after.history, room, out[0].msg())
    }

    /// `user` moved from `from` to `to`: a leave notice for the old room, the
    /// new room's history for `user` alone, then a room-change notice that is
    /// also kept in the new room's history.
    pub open spec fn moved(
        before: ChatServer,
        after: ChatServer,
        user: Seq<char>,
        from: Seq<char>,
        to: Seq<char>,
        out: Seq<Delivery>,
    ) -> bool {
        let snap = before.history.log(to);
        &&& out.len() == snap.len() + 2
        &&& out[0].broadcast_with("System"@, user + " left"@, from, MessageType::UserLeave)
        &&& replays(out, 1, user, snap)
        &&& out.last().broadcast_with(
            "System"@,
            joined_text(user, to),
            to,
            MessageType::RoomChange,
        )
        &&& appended(before.history, after.history, to, out.last().msg())
        &&& if before.registry.has(user) {
            Registry::placed(before.registry, after.registry, user, to)
        } else {
            after.registry == before.registry
        }
    }

    /// `user` sent `text` privately to `target`: both get the same private
    /// message, or `user` alone learns that `target` is not connected.
    pub open spec fn messaged(
        before: ChatServer,
        after: ChatServer,
        user: Seq<char>,
        target: Seq<char>,
        text: Seq<char>,
        out: Seq<Delivery>,
    ) -> bool {
        &&& after == before
        &&& if before.registry.has(target) {
            &&& out.len() == 2
            &&& out[0].private_with(
                target,
                user,
                text,
                "private"@,
                MessageType::PrivateMessage,
                Some(target),
            )
            &&& out[1].private_of(user, out[0].msg())
        } else {
            &&& out.len() == 1
            &&& out[0].private_with(
                user,
                "Error"@,
                "User not found"@,
                "global"@,
                MessageType::Error,
                None,
            )
        }
    }

    /// `user` was told, privately, who is in `room`.
    pub open spec fn listed(
        before: ChatServer,
        after: ChatServer,
        user: Seq<char>,
        room: Seq<char>,
        out: Seq<Delivery>,
    ) -> bool {
        &&& after == before
        &&& out.len() == 1
        &&& out[0].private_with(
            user,
            "System"@,
            "Users in "@ + room + ": "@ + joined(before.registry.users(room), ", "@),
            room,
            MessageType::System,
            None,
        )
    }

    /// `user` asked to remove `target`: done, and announced in `room`, only
    /// when `user` is the admin and `target` is connected.
    pub open spec fn kicked(
        before: ChatServer,
        after: ChatServer,
        user: Seq<char>,
        target: Seq<char>,
        room: Seq<char>,
        out: Seq<Delivery>,
    ) -> bool {
        if user == admin_name() && before.registry.has(target) {
            &&& Registry::removed(before.registry, after.registry, target)
            &&& after.history == before.history
            &&& out.len() == 3
            &&& out[0].private_with(
                target,
                "Error"@,
                "You have been kicked."@,
                "global"@,
                MessageType::Error,
                None,
            )
            &&& out[1].close_of(target)
            &&& out[2].broadcast_with(
                "System"@,
                user + " kicked "@ + target,
                room,
                MessageType::System,
            )
        } else {
            after == before && out.len() == 0
        }
    }

    /// `user` alone gets the error notice `text`; nothing else changes.
    pub open spec fn refused(
        before: ChatServer,
        after: ChatServer,
        user: Seq<char>,
        text: Seq<char>,
        out: Seq<Delivery>,
    ) -> bool {
        &&& after == before
        &&& out.len() == 1
        &&& out[0].private_with(user, "Error"@, text, "global"@, MessageType::Error, None)
    }

    /// The session of `user` ended: it leaves the registry, and its last room
    /// is told.
    pub open spec fn left(before: ChatServer, after: ChatServer, user: Seq<char>, out: Seq<Delivery>) -> bool {
        if before.registry.has(user) {
            &&& Registry::removed(before.registry, after.registry, user)
            &&& after.history == before.history
            &&& out.len() == 1
            &&& out[0].broadcast_with(
                "System"@,
                user + " disconnected"@,
                before.registry.room(user),
                MessageType::UserLeave,
            )
        } else {
            after == before && out.len() == 0
        }
    }

    /// `name` was admitted: registered in the default room, given that room's
    /// history privately, and announced there (the notice kept in history).
    pub open spec fn admitted(before: ChatServer, after: ChatServer, name: Seq<char>, out: Seq<Delivery>) -> bool {
        let snap = before.history.log(default_room());
        &&& Registry::placed(before.registry, after.registry, name, default_room())
        &&& out.len() == snap.len() + 1
        &&& replays(out, 0, name, snap)
        &&& out.last().broadcast_with(
            "System"@,
            joined_text(name, default_room()),
            default_room(),
            MessageType::UserJoin,
        )
        &&& appended(before.history, after.history, default_room(), out.last().msg())
    }

    /// The outcome of a handshake that proposed `candidate` as a name.
    pub open spec fn greeted(
        before: ChatServer,
        after: ChatServer,
        candidate: Seq<char>,
        r: Result<(String, Vec<Delivery>), HandshakeError>,
    ) -> bool {
        let name = trim_of(candidate);
        match r {
            Ok((n, out)) => valid_name(name) && !before.registry.has(name) && n@ == name
                && Self::admitted(before, after, name, out@),
            Err(e) => after == before && if !valid_name(name) {
                e == HandshakeError::InvalidUsername
            } else {
                before.registry.has(name) && e == HandshakeError::UsernameTaken
            },
        }
    }

    /// What one input line of `user` did.
    pub open spec fn answered(
        before: ChatServer,
        after: ChatServer,
        user: Seq<char>,
        line: Seq<char>,
        out: Seq<Delivery>,
    ) -> bool {
        let t = trim_of(line);
        let ws = words_of(t);
        let room = before.room_for(user);
        if t.len() == 0 {
            after == before && out.len() == 0
        } else if !is_command(t) {
            Self::chatted(before, after, user, t, room, out)
        } else if ws.len() > 0 && ws[0] == "/join"@ {
            if ws.len() < 2 {
                Self::refused(before, after, user, join_usage(), out)
            } else {
                Self::moved(before, after, user, room, ws[1], out)
            }
        } else if ws.len() > 0 && (ws[0] == "/msg"@ || ws[0] == "/w"@) {
            if ws.len() < 3 {
                Self::refused(before, after, user, msg_usage(), out)
            } else {
                Self::messaged(
                    before,
                    after,
                    user,
                    ws[1],
                    joined(ws.subrange(2, ws.len() as int), " "@),
                    out,
                )
            }
        } else if ws.len() > 0 && ws[0] == "/users"@ {
            Self::listed(before, after, user, room, out)
        } else if ws.len() > 0 && ws[0] == "/kick"@ {
            if ws.len() > 1 {
                Self::kicked(before, after, user, ws[1], room, out)
            } else {
                after == before && out.len() == 0
            }
        } else {
            Self::refused(before, after, user, "Unknown command"@, out)
        }
    }

    /// No session, no history.
    pub fn new() -> (r: Self)
        ensures
            r.wf(),
            forall|name: Seq<char>| !#[trigger] r.registry.has(name),
            forall|room: Seq<char>| #[trigger] r.history.log(room) == Seq::<ChatMessage>::empty(),
    {
        ChatServer { registry: Registry::new(), history: HistoryStore::new() }
    }

    fn current_room(&self, user: &String) -> (r: String)
        requires
            self.wf(),
        ensures
            r@ == self.room_for(user@),
    {
        match self.registry.room_of(user) {
            Some(room) => room,
            None => "general".to_owned(),
        }
    }

    /// Appends to `out` the history of `room`, oldest first, for `user` alone.
    fn replay_into(&self, user: &String, room: &String, out: &mut Vec<Delivery>)
        requires
            self.wf(),
        ensures
            final(out)@.len() == old(out)@.len() + self.history.log(room@).len(),
            final(out)@.subrange(0, old(out)@.len() as int) == old(out)@,
            replays(final(out)@, old(out)@.len() as int, user@, self.history.log(room@)),
    {
        let snap = self.history.snapshot(room);
        let ghost start = out@.len();
        let ghost prefix = out@;
        let mut i: usize = 0;
        while i < snap.len()
            invariant
                i <= snap@.len(),
                snap@ == self.history.log(room@),
                out@.len() == start + i,
                out@.subrange(0, start as int) == prefix,
                forall|j: int| 0 <= j < i ==> #[trigger] out@[start + j].private_of(user@, snap@[j]),
            decreases snap@.len() - i,
        {
            out.push(Delivery::Private { to: user.clone(), msg: snap[i].duplicate() });
            i = i + 1;
            proof {
                assert(out@.subrange(0, start as int) =~= prefix);
                assert forall|j: int| 0 <= j < i implies #[trigger] out@[start + j].private_of(
                    user@,
                    snap@[j],
                ) by {
                    if j < i - 1 {
                        assert(out@[start + j] == out@.drop_last()[start + j]);
                    }
                }
            }
        }
    }

    /// Plain text from `user`: a chat line for the user's current room, kept
    /// in that room's history and published on the bus.
    pub fn post_chat(&mut self, user: &String, text: String) -> (out: Vec<Delivery>)
        requires
            old(self).wf(),
        ensures
            final(self).wf(),
            Self::chatted(*old(self), *final(self), user@, text@, old(self).room_for(user@), out@),
    {
        let room = self.current_room(user);
        let msg = ChatMessage::chat(user.clone(), text, room.clone());
        let mut out: Vec<Delivery> = Vec::new();
        out.push(Delivery::Broadcast { msg: msg.duplicate() });
        self.history.append(&room, msg);
        out
    }

    /// `/join <room>`: moves `user` to `room`.
    pub fn join_room(&mut self, user: &String, room: String) -> (out: Vec<Delivery>)
        requires
            old(self).wf(),
        ensures
            final(self).wf(),
            Self::moved(*old(self), *final(self), user@, old(self).room_for(user@), room@, out@),
    {
        let from = self.current_room(user);
        let mut out: Vec<Delivery> = Vec::new();
        let leave = ChatMessage::new(
            "System".to_owned(),
            user.clone().concat(" left"),
            from,
            MessageType::UserLeave,
        );
        out.push(Delivery::Broadcast { msg: leave });
        let ghost before = *self;
        let _ = self.registry.set_room(user, &room);
        self.replay_into(user, &room, &mut out);
        proof {
            assert(out@[0] == out@.subrange(0, 1)[0]);
        }
        let ghost replayed = out@;
        let text = user.clone().concat(" joined room '").concat(room.as_str()).concat("'");
        let change = ChatMessage::new("System".to_owned(), text, room.clone(), MessageType::RoomChange);
        out.push(Delivery::Broadcast { msg: change.duplicate() });
        self.history.append(&room, change);
        proof {
            let snap = before.history.log(room@);
            assert(out@.drop_last() == replayed);
            assert(out@[0] == replayed[0]);
            assert forall|i: int| 0 <= i < snap.len() implies #[trigger] out@[1 + i].private_of(
                user@,
                snap[i],
            ) by {
                assert(out@[1 + i] == replayed[1 + i]);
            }
        }
        out
    }

    /// `/msg <target> <text>`: a private message, never published on the bus
    /// nor kept in any history.
    pub fn send_private(&mut self, user: &String, target: String, text: String) -> (out: Vec<Delivery>)
        requires
            old(self).wf(),
        ensures
            final(self).wf(),
            Self::messaged(*old(self), *final(self), user@, target@, text@, out@),
    {
        let mut out: Vec<Delivery> = Vec::new();
        if self.registry.contains(&target) {
            let pm = ChatMessage::private(user.clone(), target.clone(), text);
            out.push(Delivery::Private { to: target, msg: pm.duplicate() });
            out.push(Delivery::Private { to: user.clone(), msg: pm });
        } else {
            out.push(Delivery::Private { to: user.clone(), msg: ChatMessage::error("User not found".to_owned()) });
        }
        out
    }

    /// `/users`: tells `user` who is in the user's current room.
    pub fn list_users(&self, user: &String) -> (out: Vec<Delivery>)
        requires
            self.wf(),
        ensures
            Self::listed(*self, *self, user@, self.room_for(user@), out@),
            forall|u: Seq<char>|
                #[trigger] self.registry.users(self.room_for(user@)).contains(u) <==> (
                self.registry.has(u) && self.registry.room(u) == self.room_for(user@)),
            self.registry.users(self.room_for(user@)).no_duplicates(),
    {
        let room = self.current_room(user);
        let users = self.registry.users_in(&room);
        let names = join_from(&users, 0, ", ");
        proof {
            assert(users@.map_values(|s: String| s@).subrange(0, users@.len() as int)
                =~= users@.map_values(|s: String| s@));
        }
        let text = "Users in ".to_owned().concat(room.as_str()).concat(": ").concat(names.as_str());
        let mut out: Vec<Delivery> = Vec::new();
        out.push(Delivery::Private { to: user.clone(), msg: ChatMessage::system(text, room) });
        out
    }

    /// `/kick <target>`: the admin removes a connected session and tells the
    /// admin's room; from anyone else, or for a name not connected, nothing.
    pub fn kick(&mut self, user: &String, target: String) -> (out: Vec<Delivery>)
        requires
            old(self).wf(),
        ensures
            final(self).wf(),
            Self::kicked(*old(self), *final(self), user@, target@, old(self).room_for(user@), out@),
    {
        let mut out: Vec<Delivery> = Vec::new();
        if *user != "admin".to_owned() {
            return out;
        }
        let room = self.current_room(user);
        match self.registry.unregister(&target) {
            Some(_) => {
                out.push(Delivery::Private {
                    to: target.clone(),
                    msg: ChatMessage::error("You have been kicked.".to_owned()),
                });
                out.push(Delivery::Close { user: target.clone() });
                let text = user.clone().concat(" kicked ").concat(target.as_str());
                out.push(Delivery::Broadcast { msg: ChatMessage::system(text, room) });
            },
            None => {},
        }
        out
    }

    /// An error notice for `user` alone.
    pub fn reply_error(&self, user: &String, text: String) -> (out: Vec<Delivery>)
        requires
            self.wf(),
        ensures
            Self::refused(*self, *self, user@, text@, out@),
    {
        let mut out: Vec<Delivery> = Vec::new();
        out.push(Delivery::Private { to: user.clone(), msg: ChatMessage::error(text) });
        out
    }

    /// End of the session of `user` (end of input, transport error or kick).
    pub fn disconnect(&mut self, user: &String) -> (out: Vec<Delivery>)
        requires
            old(self).wf(),
        ensures
            final(self).wf(),
            Self::left(*old(self), *final(self), user@, out@),
    {
        let mut out: Vec<Delivery> = Vec::new();
        match self.registry.unregister(user) {
            Some(room) => {
                let text = user.clone().concat(" disconnected");
                out.push(Delivery::Broadcast {
                    msg: ChatMessage::new("System".to_owned(), text, room, MessageType::UserLeave),
                });
            },
            None => {},
        }
        out
    }

    /// Handshake: validates the proposed name (surrounding whitespace
    /// dropped) and registers it in the default room.
    pub fn connect(&mut self, candidate: &String) -> (r: Result<(String, Vec<Delivery>), HandshakeError>)
        requires
            old(self).wf(),
        ensures
            final(self).wf(),
            Self::greeted(*old(self), *final(self), candidate@, r),
            plain_name(candidate@) ==> trim_of(candidate@) == candidate@ && valid_name(candidate@),
    {
        let name = trimmed(candidate);
        if !valid_username(&name) {
            return Err(HandshakeError::InvalidUsername);
        }
        let room = "general".to_owned();
        let ghost before = *self;
        match self.registry.register(&name, &room) {
            Err(RegisterError::UsernameTaken) => {
                return Err(HandshakeError::UsernameTaken);
            },
            Ok(()) => {},
        }
        let mut out: Vec<Delivery> = Vec::new();
        self.replay_into(&name, &room, &mut out);
        let ghost replayed = out@;
        let text = name.clone().concat(" joined room '").concat(room.as_str()).concat("'");
        let join = ChatMessage::new("System".to_owned(), text, room.clone(), MessageType::UserJoin);
        out.push(Delivery::Broadcast { msg: join.duplicate() });
        self.history.append(&room, join);
        proof {
            let snap = before.history.log(room@);
            assert forall|i: int| 0 <= i < snap.len() implies #[trigger] out@[0 + i].private_of(
                name@,
                snap[i],
            ) by {
                assert(out@[0 + i] == replayed[0 + i]);
            }
        }
        Ok((name, out))
    }

    /// Handles one input line of the session named `user`: a command when it
    /// starts with `/`, chat text otherwise, nothing when blank.
    pub fn handle_line(&mut self, user: &String, line: &String) -> (out: Vec<Delivery>)
        requires
            old(self).wf(),
        ensures
            final(self).wf(),
            Self::answered(*old(self), *final(self), user@, line@, out@),
    {
        match parse_command(line) {
            Command::Empty => Vec::new(),
            Command::Chat(text) => self.post_chat(user, text),
            Command::Join(room) => self.join_room(user, room),
            Command::Msg(target, text) => self.send_private(user, target, text),
            Command::Users => self.list_users(user),
            Command::Kick(target) => self.kick(user, target),
            Command::KickNobody => Vec::new(),
            Command::Usage(text) => self.reply_error(user, text),
            Command::Unknown => self.reply_error(user, "Unknown command".to_owned()),
        }
    }

    /// Whether the bus hands `msg` on to the session named `user`.
    pub fn delivers_to(&self, user: &String, msg: &ChatMessage) -> (r: bool)
        requires
            self.wf(),
        ensures
            r == bus_reaches(self.registry, user@, *msg),
    {
        match self.registry.room_of(user) {
            Some(room) => should_deliver(msg, &room),
            None => false,
        }
    }
}


/// The messages that `out` enqueues for the session named `user`, in order.
pub open spec fn queued_for(out: Seq<Delivery>, user: Seq<char>) -> Seq<ChatMessage>
    decreases out.len(),
{
    if out.len() == 0 {
        Seq::empty()
    } else {
        let rest = queued_for(out.drop_last(), user);
        match out.last() {
            Delivery::Private { to, msg } => if to@ == user {
                rest.push(msg)
            } else {
                rest
            },
            _ => rest,
        }
    }
}

/// A message on the bus reaches a session only when the session's current
/// room is the message's room; after the session moves to `to`, the chat of
/// `to` reaches it and the chat of any other room, its old one included, no
/// longer does.
pub proof fn lemma_bus_follows_room(
    before: Registry,
    after: Registry,
    user: Seq<char>,
    to: Seq<char>,
    m: ChatMessage,
)
    requires
        before.wf(),
        Registry::placed(before, after, user, to),
        m.msg_type == MessageType::Chat,
    ensures
        forall|u: Seq<char>|
            #[trigger] bus_reaches(before, u, m) ==> before.has(u) && before.room(u) == m.room@,
        bus_reaches(after, user, m) <==> m.room@ == to,
        before.has(user) && m.room@ == before.room(user) && m.room@ != to ==> bus_reaches(
            before,
            user,
            m,
        ) && !bus_reaches(after, user, m),
{
}

/// A private message from `sender` to a connected `target` is enqueued
/// exactly for `target` and then for `sender`, and is neither published on
/// the bus nor kept in any room's history.
pub proof fn lemma_private_stays_private(
    before: ChatServer,
    after: ChatServer,
    sender: Seq<char>,
    target: Seq<char>,
    text: Seq<char>,
    out: Seq<Delivery>,
)
    requires
        ChatServer::messaged(before, after, sender, target, text, out),
        before.registry.has(target),
    ensures
        out.len() == 2,
        out[0].private_with(
            target,
            sender,
            text,
            "private"@,
            MessageType::PrivateMessage,
            Some(target),
        ),
        out[1].private_of(sender, out[0].msg()),
        forall|i: int| 0 <= i < out.len() ==> !(#[trigger] out[i] is Broadcast),
        forall|room: Seq<char>| #[trigger] after.history.log(room) == before.history.log(room),
{
}

proof fn lemma_queued_prefix(out: Seq<Delivery>, user: Seq<char>, snap: Seq<ChatMessage>, k: int)
    requires
        replays(out, 1, user, snap),
        out.len() > 0,
        out[0] is Broadcast,
        1 <= k <= snap.len() + 1,
    ensures
        queued_for(out.subrange(0, k), user) == snap.subrange(0, k - 1),
    decreases k,
{
    if k == 1 {
        let first = out.subrange(0, 1);
        assert(first.drop_last() =~= Seq::<Delivery>::empty());
        assert(first.last() == out[0]);
        assert(queued_for(first.drop_last(), user) == Seq::<ChatMessage>::empty());
        assert(snap.subrange(0, 0) =~= Seq::<ChatMessage>::empty());
    } else {
        lemma_queued_prefix(out, user, snap, k - 1);
        assert(out.subrange(0, k).drop_last() =~= out.subrange(0, k - 1));
        assert(out[1 + (k - 2)].private_of(user, snap[k - 2]));
        assert(out.subrange(0, k).last() == out[k - 1]);
        assert(snap.subrange(0, k - 1) =~= snap.subrange(0, k - 2).push(snap[k - 2]));
    }
}

/// After `/join`, the joining session's private queue receives exactly the
/// new room's history as it stood, oldest first, each entry once.
pub proof fn lemma_join_replays_history(
    before: ChatServer,
    after: ChatServer,
    user: Seq<char>,
    from: Seq<char>,
    to: Seq<char>,
    out: Seq<Delivery>,
)
    requires
        ChatServer::moved(before, after, user, from, to, out),
    ensures
        queued_for(out, user) == before.history.log(to),
{
    let snap = before.history.log(to);
    let n = snap.len() as int;
    lemma_queued_prefix(out, user, snap, n + 1);
    assert(out.drop_last() =~= out.subrange(0, n + 1));
    assert(snap.subrange(0, n) =~= snap);
}

} // verus!