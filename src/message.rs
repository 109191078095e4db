use vstd::prelude::*;

verus! {

/// Kind of a chat message; it decides routing and rendering.
#[derive(Debug, Clone, Copy, PartialEq, Eq, Structural)]
pub enum MessageType {
    Chat,
    System,
    UserJoin,
    UserLeave,
    PrivateMessage,
    RoomChange,
    Error,
}

/// One immutable chat message.
///
/// `timestamp` is the creation time in milliseconds since the Unix epoch, UTC.
#[derive(Debug)]
pub struct ChatMessage {
    pub id: String,
    pub username: String,
    pub content: String,
    pub room: String,
    pub timestamp: u64,
    pub msg_type: MessageType,
    pub recipient: Option<String>,
}

/// First line a client sends: the name it wants to use.
#[derive(Debug)]
pub struct Handshake {
    pub username: String,
}

/// Relies on uuid::Uuid::new_v4 and its text form: a fresh random identifier.
#[verifier::external_body]
fn fresh_id() -> (r: String) {
    uuid::Uuid::new_v4().to_string()
}

/// Relies on chrono::Utc::now and DateTime::timestamp_millis: the current time
/// in milliseconds since the Unix epoch (never before it: `now` panics there).
#[verifier::external_body]
fn now_millis() -> (r: u64) {
    chrono::Utc::now().timestamp_millis() as u64
}

/// The view of an optional string.
pub open spec fn opt_view(o: Option<String>) -> Option<Seq<char>> {
    match o {
        Some(s) => Some(s@),
        None => None,
    }
}

/// Two digits of `n`, which is below one hundred.
pub open spec fn two_digits(n: nat) -> Seq<char> {
    seq![(('0' as nat) + n / 10) as char, (('0' as nat) + n % 10) as char]
}

/// The `HH:MM` form, in UTC, of a time given in milliseconds since the epoch.
pub open spec fn clock_text(ms: nat) -> Seq<char> {
    let minute_of_day = (ms / 60000) % 1440;
    two_digits(minute_of_day / 60) + seq![':'] + two_digits(minute_of_day % 60)
}

/// Relies on String::push: appends one character.
#[verifier::external_body]
pub(crate) fn push_char(s: &mut String, c: char)
    ensures
        final(s)@ == old(s)@.push(c),
{
    s.push(c)
}

fn digit(n: u64) -> (c: char)
    requires
        n < 10,
    ensures
        c == (('0' as nat) + n) as char,
{
    let b: u8 = 48u8 + n as u8;
    b as char
}

impl ChatMessage {
    /// Whether the message carries exactly these fields (its id and time aside).
    pub open spec fn has_fields(
        self,
        username: Seq<char>,
        content: Seq<char>,
        room: Seq<char>,
        kind: MessageType,
        recipient: Option<Seq<char>>,
    ) -> bool {
        &&& self.username@ == username
        &&& self.content@ == content
        &&& self.room@ == room
        &&& self.msg_type == kind
        &&& opt_view(self.recipient) == recipient
    }

    /// A new message with a fresh id, stamped with the current time.
    pub fn new(username: String, content: String, room: String, msg_type: MessageType) -> (r: Self)
        ensures
            r.has_fields(username@, content@, room@, msg_type, None),
    {
        ChatMessage {
            id: fresh_id(),
            username,
            content,
            room,
            timestamp: now_millis(),
            msg_type,
            recipient: None,
        }
    }

    /// A chat line of `username` in `room`.
    pub fn chat(username: String, content: String, room: String) -> (r: Self)
        ensures
            r.has_fields(username@, content@, room@, MessageType::Chat, None),
    {
        Self::new(username, content, room, MessageType::Chat)
    }

    /// A notice from the server, shown in `room`.
    pub fn system(content: String, room: String) -> (r: Self)
        ensures
            r.has_fields("System"@, content@, room@, MessageType::System, None),
    {
        Self::new("System".to_owned(), content, room, MessageType::System)
    }

    /// A private message from `username` to `recipient`.
    pub fn private(username: String, recipient: String, content: String) -> (r: Self)
        ensures
            r.has_fields(
                username@,
                content@,
                "private"@,
                MessageType::PrivateMessage,
                Some(recipient@),
            ),
    {
        let mut msg = Self::new(username, content, "private".to_owned(), MessageType::PrivateMessage);
        msg.recipient = Some(recipient);
        msg
    }

    /// An error notice for a single session.
    pub fn error(content: String) -> (r: Self)
        ensures
            r.has_fields("Error"@, content@, "global"@, MessageType::Error, None),
    {
        Self::new("Error".to_owned(), content, "global".to_owned(), MessageType::Error)
    }

    /// The creation time as `HH:MM`, UTC.
    pub fn format_time(&self) -> (r: String)
        ensures
            r@ == clock_text(self.timestamp as nat),
    {
        let minute_of_day: u64 = (self.timestamp / 60000) % 1440;
        let hours: u64 = minute_of_day / 60;
        let minutes: u64 = minute_of_day % 60;
        let mut r = String::new();
        push_char(&mut r, digit(hours / 10));
        push_char(&mut r, digit(hours % 10));
        push_char(&mut r, ':');
        push_char(&mut r, digit(minutes / 10));
        push_char(&mut r, digit(minutes % 10));
        proof {
            assert(r@ =~= clock_text(self.timestamp as nat));
        }
        r
    }

    /// An exact copy, id and time included.
    pub fn duplicate(&self) -> (r: Self)
        ensures
            r == *self,
    {
        let recipient = match &self.recipient {
            Some(s) => Some(s.clone()),
            None => None,
        };
        ChatMessage {
            id: self.id.clone(),
            username: self.username.clone(),
            content: self.content.clone(),
            room: self.room.clone(),
            timestamp: self.timestamp,
            msg_type: self.msg_type,
            recipient,
        }
    }
}

} // verus!
