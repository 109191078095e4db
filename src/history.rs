use vstd::prelude::*;
use crate::message::ChatMessage;

verus! {

/// Most messages a room keeps.
pub const HISTORY_CAP: usize = 50;

/// The newest `HISTORY_CAP` entries of `s`, in arrival order.
pub open spec fn capped(s: Seq<ChatMessage>) -> Seq<ChatMessage> {
    if s.len() <= HISTORY_CAP {
        s
    } else {
        s.subrange(s.len() - HISTORY_CAP, s.len() as int)
    }
}

/// A room's history after `arrivals` were appended one by one to an empty one.
pub open spec fn replay(arrivals: Seq<ChatMessage>) -> Seq<ChatMessage>
    decreases arrivals.len(),
{
    if arrivals.len() == 0 {
        Seq::empty()
    } else {
        capped(replay(arrivals.drop_last()).push(arrivals.last()))
    }
}

/// Whatever was appended to a room, its history holds at most `HISTORY_CAP`
/// entries, and those are exactly the newest ones in arrival order.
pub proof fn lemma_history_keeps_newest(arrivals: Seq<ChatMessage>)
    ensures
        replay(arrivals) == capped(arrivals),
        replay(arrivals).len() <= HISTORY_CAP,
    decreases arrivals.len(),
{
    if arrivals.len() > 0 {
        let prev = arrivals.drop_last();
        lemma_history_keeps_newest(prev);
        let n = arrivals.len();
        if n <= HISTORY_CAP {
            assert(capped(prev).push(arrivals.last()) =~= arrivals);
        } else {
            assert(capped(capped(prev).push(arrivals.last())) =~= capped(arrivals));
        }
    }
}

/// The recent messages of one room.
struct RoomLog {
    room: String,
    messages: Vec<ChatMessage>,
}

/// Bounded recent history of every room that has had a message.
pub struct HistoryStore {
    rooms: Vec<RoomLog>,
}

impl HistoryStore {
    /// Room names are unique and no room holds more than `HISTORY_CAP` messages.
    pub closed spec fn wf(&self) -> bool {
        &&& forall|i: int, j: int|
            0 <= i < j < self.rooms@.len() ==> self.rooms@[i].room@ != self.rooms@[j].room@
        &&& forall|i: int|
            0 <= i < self.rooms@.len() ==> self.rooms@[i].messages@.len() <= HISTORY_CAP
    }

    closed spec fn holds(&self, room: Seq<char>, i: int) -> bool {
        0 <= i < self.rooms@.len() && self.rooms@[i].room@ == room
    }

    /// The history of `room`, oldest first; empty for a room never written to.
    pub closed spec fn log(&self, room: Seq<char>) -> Seq<ChatMessage> {
        if exists|i: int| self.holds(room, i) {
            self.rooms@[choose|i: int| self.holds(room, i)].messages@
        } else {
            Seq::empty()
        }
    }

    proof fn lemma_log_at(&self, room: Seq<char>, i: int)
        requires
            self.wf(),
            self.holds(room, i),
        ensures
            self.log(room) == self.rooms@[i].messages@,
    {
        let j = choose|j: int| self.holds(room, j);
        if j < i {
            assert(self.rooms@[j].room@ != self.rooms@[i].room@);
        } else if i < j {
            assert(self.rooms@[i].room@ != self.rooms@[j].room@);
        }
    }

    /// No room has any history yet.
    pub fn new() -> (r: Self)
        ensures
            r.wf(),
            forall|room: Seq<char>| #[trigger] r.log(room) == Seq::<ChatMessage>::empty(),
    {
        HistoryStore { rooms: Vec::new() }
    }

    /// Every log is at most `HISTORY_CAP` long.
    pub proof fn lemma_log_len(&self, room: Seq<char>)
        requires
            self.wf(),
        ensures
            self.log(room).len() <= HISTORY_CAP,
    {
    }

    fn find(&self, room: &String) -> (r: Option<usize>)
        requires
            self.wf(),
        ensures
            match r {
                Some(i) => self.holds(room@, i as int),
                None => forall|i: int| !self.holds(room@, i),
            },
    {
        let mut i: usize = 0;
        while i < self.rooms.len()
            invariant
                i <= self.rooms@.len(),
                forall|j: int| 0 <= j < i ==> !self.holds(room@, j),
            decreases self.rooms@.len() - i,
        {
            if self.rooms[i].room == *room {
                return Some(i);
            }
            i = i + 1;
        }
        None
    }

    /// Appends `msg` to the history of `room`, evicting the oldest entry when
    /// the room would hold more than `HISTORY_CAP`.
    pub fn append(&mut self, room: &String, msg: ChatMessage)
        requires
            old(self).wf(),
        ensures
            final(self).wf(),
            final(self).log(room@) == capped(old(self).log(room@).push(msg)),
            forall|other: Seq<char>|
                other != room@ ==> #[trigger] final(self).log(other) == old(self).log(other),
    {
        match self.find(room) {
            Some(i) => {
                proof {
                    self.lemma_log_at(room@, i as int);
                }
                let mut log = self.rooms.remove(i);
                log.messages.push(msg);
                if log.messages.len() > HISTORY_CAP {
                    log.messages.remove(0);
                }
                self.rooms.insert(i, log);
                proof {
                    assert(log.messages@ =~= capped(old(self).log(room@).push(msg)));
                    assert forall|a: int, b: int|
                        0 <= a < b < self.rooms@.len() implies self.rooms@[a].room@
                        != self.rooms@[b].room@ by {
                        assert(self.rooms@[a] == old(self).rooms@[a] || a == i);
                        assert(self.rooms@[b] == old(self).rooms@[b] || b == i);
                    }
                    self.lemma_log_at(room@, i as int);
                    assert forall|other: Seq<char>|
                        other != room@ implies #[trigger] self.log(other) == old(self).log(other) by {
                        if exists|k: int| old(self).holds(other, k) {
                            let k = choose|k: int| old(self).holds(other, k);
                            old(self).lemma_log_at(other, k);
                            self.lemma_log_at(other, k);
                        } else {
                            assert forall|k: int| !self.holds(other, k) by {
                                if self.holds(other, k) {
                                    assert(old(self).holds(other, k));
                                }
                            }
                        }
                    }
                }
            },
            None => {
                let mut messages = Vec::new();
                messages.push(msg);
                let ghost n = self.rooms@.len();
                self.rooms.push(RoomLog { room: room.clone(), messages });
                proof {
                    assert(old(self).log(room@) =~= Seq::<ChatMessage>::empty());
                    assert forall|a: int, b: int|
                        0 <= a < b < self.rooms@.len() implies self.rooms@[a].room@
                        != self.rooms@[b].room@ by {
                        if b == n {
                            assert(!old(self).holds(room@, a));
                        }
                    }
                    assert(messages@ =~= capped(old(self).log(room@).push(msg)));
                    self.lemma_log_at(room@, n as int);
                    assert forall|other: Seq<char>|
                        other != room@ implies #[trigger] self.log(other) == old(self).log(other) by {
                        if exists|k: int| old(self).holds(other, k) {
                            let k = choose|k: int| old(self).holds(other, k);
                            old(self).lemma_log_at(other, k);
                            self.lemma_log_at(other, k);
                        } else {
                            assert forall|k: int| !self.holds(other, k) by {
                                if self.holds(other, k) {
                                    assert(old(self).holds(other, k));
                                }
                            }
                        }
                    }
                }
            },
        }
    }

    /// The history of `room`, oldest first.
    pub fn snapshot(&self, room: &String) -> (r: Vec<ChatMessage>)
        requires
            self.wf(),
        ensures
            r@ == self.log(room@),
    {
        match self.find(room) {
            Some(i) => {
                proof {
                    self.lemma_log_at(room@, i as int);
                }
                let src = &self.rooms[i].messages;
                let mut out: Vec<ChatMessage> = Vec::new();
                let mut k: usize = 0;
                while k < src.len()
                    invariant
                        k <= src@.len(),
                        out@ == src@.subrange(0, k as int),
                    decreases src@.len() - k,
                {
                    out.push(src[k].duplicate());
                    k = k + 1;
                    proof {
                        assert(out@ =~= src@.subrange(0, k as int));
                    }
                }
                proof {
                    assert(out@ =~= src@);
                }
                out
            },
            None => Vec::new(),
        }
    }
}

} // verus!
