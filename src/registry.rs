use vstd::prelude::*;

verus! {

/// Why a name could not be registered.
#[derive(Debug, Clone, Copy, PartialEq, Eq, Structural)]
pub enum RegisterError {
    UsernameTaken,
}

/// One live session: its name and the room it is in.
pub struct Session {
    pub username: String,
    pub room: String,
}

/// The names of the sessions in `room`, in registration order.
pub open spec fn members(sessions: Seq<Session>, room: Seq<char>) -> Seq<Seq<char>>
    decreases sessions.len(),
{
    if sessions.len() == 0 {
        Seq::empty()
    } else if sessions.last().room@ == room {
        members(sessions.drop_last(), room).push(sessions.last().username@)
    } else {
        members(sessions.drop_last(), room)
    }
}

proof fn lemma_members(s: Seq<Session>, room: Seq<char>)
    requires
        forall|i: int, j: int| 0 <= i < j < s.len() ==> s[i].username@ != s[j].username@,
    ensures
        forall|u: Seq<char>|
            #[trigger] members(s, room).contains(u) <==> exists|i: int|
                0 <= i < s.len() && #[trigger] s[i].username@ == u && s[i].room@ == room,
        members(s, room).no_duplicates(),
    decreases s.len(),
{
    if s.len() > 0 {
        let prev = s.drop_last();
        let n = s.len() - 1;
        assert forall|i: int, j: int| 0 <= i < j < prev.len() implies prev[i].username@
            != prev[j].username@ by {
            assert(prev[i] == s[i] && prev[j] == s[j]);
        }
        lemma_members(prev, room);
        assert forall|u: Seq<char>| #[trigger] members(s, room).contains(u) <==> exists|i: int|
            0 <= i < s.len() && #[trigger] s[i].username@ == u && s[i].room@ == room by {
            let m = members(prev, room);
            if s.last().room@ == room {
                assert(members(s, room) == m.push(s.last().username@));
                if m.contains(u) {
                    let k = choose|k: int| 0 <= k < m.len() && m[k] == u;
                    assert(members(s, room)[k] == u);
                }
            } else {
                assert(members(s, room) == m);
            }
            if m.contains(u) {
                let i = choose|i: int|
                    0 <= i < prev.len() && #[trigger] prev[i].username@ == u && prev[i].room@ == room;
                assert(s[i] == prev[i]);
            } else if members(s, room).contains(u) {
                let k = choose|k: int| 0 <= k < members(s, room).len() && members(s, room)[k] == u;
                assert(s.last().room@ == room);
                assert(k == m.len());
                assert(s[n].username@ == u && s[n].room@ == room);
            }
            if exists|i: int| 0 <= i < s.len() && #[trigger] s[i].username@ == u && s[i].room@ == room {
                let i = choose|i: int|
                    0 <= i < s.len() && #[trigger] s[i].username@ == u && s[i].room@ == room;
                if i < n {
                    assert(prev[i] == s[i]);
                    assert(m.contains(u));
                } else {
                    assert(members(s, room) == m.push(u));
                    assert(members(s, room)[m.len() as int] == u);
                }
            }
        }
        if s.last().room@ == room {
            let m = members(prev, room);
            let last = s.last().username@;
            if m.contains(last) {
                let i = choose|i: int|
                    0 <= i < prev.len() && #[trigger] prev[i].username@ == last && prev[i].room@ == room;
                assert(s[i] == prev[i]);
                assert(s[i].username@ != s[n].username@);
            }
            assert forall|a: int, b: int| 0 <= a < m.push(last).len() && 0 <= b < m.push(last).len()
                && a != b implies m.push(last)[a] != m.push(last)[b] by {
                if b == m.len() {
                    assert(m.contains(m[a]));
                } else if a == m.len() {
                    assert(m.contains(m[b]));
                }
            }
        }
    }
}

/// Who is connected, and where.
pub struct Registry {
    sessions: Vec<Session>,
}

impl Registry {
    /// No two sessions share a name.
    pub closed spec fn wf(&self) -> bool {
        forall|i: int, j: int|
            0 <= i < j < self.sessions@.len() ==> self.sessions@[i].username@
                != self.sessions@[j].username@
    }

    closed spec fn holds(&self, name: Seq<char>, i: int) -> bool {
        0 <= i < self.sessions@.len() && self.sessions@[i].username@ == name
    }

    /// Whether a live session has this name.
    pub closed spec fn has(&self, name: Seq<char>) -> bool {
        exists|i: int| self.holds(name, i)
    }

    /// The room of the session with this name (meaningful where `has` holds).
    pub closed spec fn room(&self, name: Seq<char>) -> Seq<char> {
        self.sessions@[choose|i: int| self.holds(name, i)].room@
    }

    /// The names of the sessions in `room`, in registration order.
    pub closed spec fn users(&self, room: Seq<char>) -> Seq<Seq<char>> {
        members(self.sessions@, room)
    }

    /// `after` is `before` with `name` now in `room`, every other session kept.
    pub open spec fn placed(before: Registry, after: Registry, name: Seq<char>, room: Seq<char>) -> bool {
        &&& after.wf()
        &&& after.has(name)
        &&& after.room(name) == room
        &&& forall|other: Seq<char>|
            other != name ==> (#[trigger] after.has(other) == before.has(other) && (before.has(other)
                ==> after.room(other) == before.room(other)))
    }

    /// `after` is `before` without the session named `name`, every other one kept.
    pub open spec fn removed(before: Registry, after: Registry, name: Seq<char>) -> bool {
        &&& after.wf()
        &&& !after.has(name)
        &&& forall|other: Seq<char>|
            other != name ==> (#[trigger] after.has(other) == before.has(other) && (before.has(other)
                ==> after.room(other) == before.room(other)))
    }

    proof fn lemma_room_at(&self, name: Seq<char>, i: int)
        requires
            self.wf(),
            self.holds(name, i),
        ensures
            self.has(name),
            self.room(name) == self.sessions@[i].room@,
    {
        let j = choose|j: int| self.holds(name, j);
        if j < i {
            assert(self.sessions@[j].username@ != self.sessions@[i].username@);
        } else if i < j {
            assert(self.sessions@[i].username@ != self.sessions@[j].username@);
        }
    }

    /// Nobody is connected.
    pub fn new() -> (r: Self)
        ensures
            r.wf(),
            forall|name: Seq<char>| !#[trigger] r.has(name),
    {
        Registry { sessions: Vec::new() }
    }

    fn find(&self, name: &String) -> (r: Option<usize>)
        requires
            self.wf(),
        ensures
            match r {
                Some(i) => self.holds(name@, i as int),
                None => !self.has(name@),
            },
    {
        let mut i: usize = 0;
        while i < self.sessions.len()
            invariant
                i <= self.sessions@.len(),
                forall|j: int| 0 <= j < i ==> !self.holds(name@, j),
            decreases self.sessions@.len() - i,
        {
            if self.sessions[i].username == *name {
                return Some(i);
            }
            i = i + 1;
        }
        None
    }

    /// Adds a session named `name` in `room`, in one step with the check that
    /// the name is free; refuses a name already in use.
    pub fn register(&mut self, name: &String, room: &String) -> (r: Result<(), RegisterError>)
        requires
            old(self).wf(),
        ensures
            r is Ok <==> !old(self).has(name@),
            r is Ok ==> Self::placed(*old(self), *final(self), name@, room@),
            r is Err ==> r == Err::<(), RegisterError>(RegisterError::UsernameTaken) && *final(self)
                == *old(self),
    {
        match self.find(name) {
            Some(i) => {
                Err(RegisterError::UsernameTaken)
            },
            None => {
                let ghost n = self.sessions@.len();
                self.sessions.push(Session { username: name.clone(), room: room.clone() });
                proof {
                    assert forall|a: int, b: int|
                        0 <= a < b < self.sessions@.len() implies self.sessions@[a].username@
                        != self.sessions@[b].username@ by {
                        if b == n {
                            assert(!old(self).holds(name@, a));
                        }
                    }
                    self.lemma_room_at(name@, n as int);
                    assert forall|other: Seq<char>| other != name@ implies (#[trigger] self.has(other)
                        == old(self).has(other) && (old(self).has(other) ==> self.room(other)
                        == old(self).room(other))) by {
                        if old(self).has(other) {
                            let k = choose|k: int| old(self).holds(other, k);
                            old(self).lemma_room_at(other, k);
                            self.lemma_room_at(other, k);
                        } else if self.has(other) {
                            let k = choose|k: int| self.holds(other, k);
                            assert(old(self).holds(other, k));
                        }
                    }
                }
                Ok(())
            },
        }
    }

    /// Removes the session named `name`; returns the room it was in.
    pub fn unregister(&mut self, name: &String) -> (r: Option<String>)
        requires
            old(self).wf(),
        ensures
            r is Some <==> old(self).has(name@),
            r is Some ==> r->0@ == old(self).room(name@),
            r is None ==> *final(self) == *old(self),
            Self::removed(*old(self), *final(self), name@),
    {
        match self.find(name) {
            Some(i) => {
                proof {
                    self.lemma_room_at(name@, i as int);
                }
                let s = self.sessions.remove(i);
                proof {
                    assert forall|a: int, b: int|
                        0 <= a < b < self.sessions@.len() implies self.sessions@[a].username@
                        != self.sessions@[b].username@ by {
                        let oa = if a < i { a } else { a + 1 };
                        let ob = if b < i { b } else { b + 1 };
                        assert(self.sessions@[a] == old(self).sessions@[oa]);
                        assert(self.sessions@[b] == old(self).sessions@[ob]);
                    }
                    assert forall|k: int| !self.holds(name@, k) by {
                        if self.holds(name@, k) {
                            let ok = if k < i { k } else { k + 1 };
                            assert(old(self).sessions@[ok] == self.sessions@[k]);
                            assert(old(self).sessions@[i as int].username@ != old(self).sessions@[ok].username@
                                || ok == i);
                        }
                    }
                    assert forall|other: Seq<char>| other != name@ implies (#[trigger] self.has(other)
                        == old(self).has(other) && (old(self).has(other) ==> self.room(other)
                        == old(self).room(other))) by {
                        if old(self).has(other) {
                            let k = choose|k: int| old(self).holds(other, k);
                            old(self).lemma_room_at(other, k);
                            assert(k != i);
                            let nk = if k < i { k } else { k - 1 };
                            assert(self.sessions@[nk] == old(self).sessions@[k]);
                            self.lemma_room_at(other, nk);
                        } else if self.has(other) {
                            let k = choose|k: int| self.holds(other, k);
                            let ok = if k < i { k } else { k + 1 };
                            assert(old(self).sessions@[ok] == self.sessions@[k]);
                            assert(old(self).holds(other, ok));
                        }
                    }
                }
                Some(s.room)
            },
            None => None,
        }
    }

    /// The room of the session named `name`, if there is one.
    pub fn room_of(&self, name: &String) -> (r: Option<String>)
        requires
            self.wf(),
        ensures
            r is Some <==> self.has(name@),
            r is Some ==> r->0@ == self.room(name@),
    {
        match self.find(name) {
            Some(i) => {
                proof {
                    self.lemma_room_at(name@, i as int);
                }
                Some(self.sessions[i].room.clone())
            },
            None => None,
        }
    }

    /// Whether a session named `name` is live.
    pub fn contains(&self, name: &String) -> (r: bool)
        requires
            self.wf(),
        ensures
            r == self.has(name@),
    {
        self.find(name).is_some()
    }

    /// Moves the session named `name` to `room`; false, and no change, when
    /// there is no such session.
    pub fn set_room(&mut self, name: &String, room: &String) -> (r: bool)
        requires
            old(self).wf(),
        ensures
            r == old(self).has(name@),
            r ==> Self::placed(*old(self), *final(self), name@, room@),
            !r ==> *final(self) == *old(self),
    {
        match self.find(name) {
            Some(i) => {
                let ghost n = self.sessions@.len();
                let s = self.sessions.remove(i);
                self.sessions.insert(i, Session { username: s.username, room: room.clone() });
                proof {
                    assert forall|k: int| 0 <= k < n && k != i implies self.sessions@[k]
                        == old(self).sessions@[k] by {}
                    assert forall|a: int, b: int|
                        0 <= a < b < self.sessions@.len() implies self.sessions@[a].username@
                        != self.sessions@[b].username@ by {
                        assert(self.sessions@[a].username@ == old(self).sessions@[a].username@);
                        assert(self.sessions@[b].username@ == old(self).sessions@[b].username@);
                    }
                    self.lemma_room_at(name@, i as int);
                    assert forall|other: Seq<char>| other != name@ implies (#[trigger] self.has(other)
                        == old(self).has(other) && (old(self).has(other) ==> self.room(other)
                        == old(self).room(other))) by {
                        if old(self).has(other) {
                            let k = choose|k: int| old(self).holds(other, k);
                            old(self).lemma_room_at(other, k);
                            self.lemma_room_at(other, k);
                        } else if self.has(other) {
                            let k = choose|k: int| self.holds(other, k);
                            assert(old(self).holds(other, k));
                        }
                    }
                }
                true
            },
            None => false,
        }
    }

    /// The names listed for `room` are exactly those of the live sessions in
    /// `room`, each once.
    pub proof fn lemma_users(&self, room: Seq<char>)
        requires
            self.wf(),
        ensures
            forall|u: Seq<char>|
                #[trigger] self.users(room).contains(u) <==> (self.has(u) && self.room(u) == room),
            self.users(room).no_duplicates(),
    {
        lemma_members(self.sessions@, room);
        assert forall|u: Seq<char>| #[trigger] self.users(room).contains(u) <==> (self.has(u)
            && self.room(u) == room) by {
            if self.users(room).contains(u) {
                let i = choose|i: int|
                    0 <= i < self.sessions@.len() && #[trigger] self.sessions@[i].username@ == u
                        && self.sessions@[i].room@ == room;
                self.lemma_room_at(u, i);
            }
            if self.has(u) && self.room(u) == room {
                let i = choose|i: int| self.holds(u, i);
                self.lemma_room_at(u, i);
                assert(self.sessions@[i].username@ == u && self.sessions@[i].room@ == room);
            }
        }
    }

    /// The names of the sessions in `room`, in registration order.
    pub fn users_in(&self, room: &String) -> (r: Vec<String>)
        requires
            self.wf(),
        ensures
            r@.map_values(|s: String| s@) == self.users(room@),
            forall|u: Seq<char>|
                #[trigger] self.users(room@).contains(u) <==> (self.has(u) && self.room(u) == room@),
            self.users(room@).no_duplicates(),
    {
        proof {
            self.lemma_users(room@);
        }
        let mut out: Vec<String> = Vec::new();
        let mut i: usize = 0;
        while i < self.sessions.len()
            invariant
                i <= self.sessions@.len(),
                out@.map_values(|s: String| s@) == members(self.sessions@.subrange(0, i as int), room@),
            decreases self.sessions@.len() - i,
        {
            proof {
                assert(self.sessions@.subrange(0, i + 1).drop_last() =~= self.sessions@.subrange(0, i as int));
            }
            if self.sessions[i].room == *room {
                out.push(self.sessions[i].username.clone());
                proof {
                    assert(out@.map_values(|s: String| s@) =~= members(self.sessions@.subrange(0, i as int), room@).push(self.sessions@[i as int].username@));
                }
            }
            i = i + 1;
        }
        proof {
            assert(self.sessions@.subrange(0, i as int) =~= self.sessions@);
        }
        out
    }
}

/// While a session holds a name, registering that name again is refused;
/// once that session has been removed, registering the name succeeds.
pub proof fn lemma_name_reuse(
    first: Registry,
    joined: Registry,
    left: Registry,
    name: Seq<char>,
    room: Seq<char>,
)
    requires
        first.wf(),
        Registry::placed(first, joined, name, room),
        Registry::removed(joined, left, name),
    ensures
        joined.has(name),
        !left.has(name),
{
}

} // verus!
