//! Per-room state: the peer set, its capacity and the optional password.

use vstd::prelude::*;

verus! {

/// Global ceiling on the capacity of any single room.
pub const MAX_PEERS_PER_ROOM: usize = 6;

/// Default ceiling on the number of rooms held at once.
pub const MAX_GLOBAL_ROOMS: usize = 500;

/// Identifies a room within an application scope.
#[derive(Clone, Debug, PartialEq, Eq, Hash)]
pub struct RoomKey {
    pub app_id: String,
    pub room_id: String,
}

impl View for RoomKey {
    type V = (Seq<char>, Seq<char>);

    open spec fn view(&self) -> (Seq<char>, Seq<char>) {
        (self.app_id@, self.room_id@)
    }
}

impl RoomKey {
    /// A copy of the key.
    pub fn duplicate(&self) -> (r: RoomKey)
        ensures
            r@ == self@,
    {
        RoomKey { app_id: self.app_id.clone(), room_id: self.room_id.clone() }
    }
}

/// The ids held in a vector of peer ids, as character sequences.
pub open spec fn ids_of(peers: Seq<String>) -> Seq<Seq<char>> {
    peers.map_values(|s: String| s@)
}

/// State of one room. `created_at_ms` is a monotonic timestamp in milliseconds.
#[derive(Clone, Debug)]
pub struct RoomState {
    pub peers: Vec<String>,
    pub created_at_ms: u64,
    pub max_peers: usize,
    pub password: Option<String>,
}

/// Why a connection is refused before its handshake completes.
#[derive(Clone, Copy, Debug, PartialEq, Eq)]
pub enum AdmissionError {
    PasswordRequired,
    PasswordInvalid,
    RoomFull,
    NotFound,
}

/// Why a peer could not be registered in a room.
#[derive(Clone, Copy, Debug, PartialEq, Eq)]
pub enum RegisterError {
    RoomFull,
    PeerIdTaken,
    NotFound,
}

/// Snapshot of a room as reported to clients.
#[derive(Clone, Copy, Debug, PartialEq, Eq)]
pub struct RoomStatus {
    pub peers: usize,
    pub capacity: usize,
    pub full: bool,
    pub password_required: bool,
}

/// The outcome of an admission check against a room's snapshot.
pub open spec fn admission_spec(
    password: Option<Seq<char>>,
    provided: Option<Seq<char>>,
    peer_count: nat,
    max_peers: nat,
) -> Result<(), AdmissionError> {
    match password {
        Some(p) => match provided {
            None => Err(AdmissionError::PasswordRequired),
            Some(q) => if q != p {
                Err(AdmissionError::PasswordInvalid)
            } else if peer_count >= max_peers {
                Err(AdmissionError::RoomFull)
            } else {
                Ok(())
            },
        },
        None => if peer_count >= max_peers {
            Err(AdmissionError::RoomFull)
        } else {
            Ok(())
        },
    }
}

pub open spec fn opt_view(o: Option<String>) -> Option<Seq<char>> {
    match o {
        Some(s) => Some(s@),
        None => None,
    }
}

pub open spec fn min_usize(a: usize, b: usize) -> usize {
    if a < b { a } else { b }
}

/// `a` holds the same room as `b`: the same peer ids, capacity, password
/// text and creation time.
pub open spec fn same_room(a: RoomState, b: RoomState) -> bool {
    &&& a.ids() == b.ids()
    &&& a.peers@.len() == b.peers@.len()
    &&& a.max_peers == b.max_peers
    &&& opt_view(a.password) == opt_view(b.password)
    &&& a.created_at_ms == b.created_at_ms
}

impl RoomState {
    /// The ids currently registered, as character sequences.
    pub open spec fn ids(&self) -> Seq<Seq<char>> {
        ids_of(self.peers@)
    }

    /// The set of registered peer ids.
    pub open spec fn peer_set(&self) -> Set<Seq<char>> {
        self.ids().to_set()
    }

    /// Peer ids are distinct and never exceed the room's capacity.
    pub open spec fn wf(&self) -> bool {
        &&& self.ids().no_duplicates()
        &&& self.peers@.len() <= self.max_peers
    }

    /// A fresh, empty room whose capacity is capped at the global ceiling.
    pub fn with_capacity(max_peers: usize, password: Option<String>, created_at_ms: u64) -> (r:
        RoomState)
        ensures
            r.wf(),
            r.peers@.len() == 0,
            r.max_peers == min_usize(max_peers, MAX_PEERS_PER_ROOM),
            r.password == password,
            r.created_at_ms == created_at_ms,
    {
        let cap = if max_peers < MAX_PEERS_PER_ROOM {
            max_peers
        } else {
            MAX_PEERS_PER_ROOM
        };
        let r = RoomState { peers: Vec::new(), created_at_ms, max_peers: cap, password };
        assert(r.ids() =~= Seq::<Seq<char>>::empty());
        r
    }

    /// Whether `peer_id` is registered.
    pub fn contains(&self, peer_id: &String) -> (r: bool)
        ensures
            r == self.ids().contains(peer_id@),
    {
        let mut i: usize = 0;
        while i < self.peers.len()
            invariant
                i <= self.peers@.len(),
                forall|j: int| 0 <= j < i ==> self.ids()[j] != peer_id@,
            decreases self.peers@.len() - i,
        {
            if self.peers[i] == *peer_id {
                assert(self.ids()[i as int] == peer_id@);
                return true;
            }
            i = i + 1;
        }
        false
    }

    /// Number of registered peers.
    pub fn peer_count(&self) -> (r: usize)
        ensures
            r == self.peers@.len(),
    {
        self.peers.len()
    }

    /// Advisory admission check made before a connection is accepted: the
    /// password is checked first, then the capacity.
    pub fn check_admission(&self, provided: Option<&String>) -> (r: Result<(), AdmissionError>)
        ensures
            r == admission_spec(
                opt_view(self.password),
                match provided {
                    Some(s) => Some(s@),
                    None => None,
                },
                self.peers@.len(),
                self.max_peers as nat,
            ),
    {
        let full = self.peers.len() >= self.max_peers;
        match &self.password {
            Some(p) => match provided {
                None => Err(AdmissionError::PasswordRequired),
                Some(q) => if *q != *p {
                    Err(AdmissionError::PasswordInvalid)
                } else if full {
                    Err(AdmissionError::RoomFull)
                } else {
                    Ok(())
                },
            },
            None => if full {
                Err(AdmissionError::RoomFull)
            } else {
                Ok(())
            },
        }
    }

    /// The binding capacity gate: inserts `peer_id` only while the room has a
    /// free place and the id is not already taken, checked together with the
    /// insertion.
    pub fn register(&mut self, peer_id: String) -> (r: Result<(), RegisterError>)
        requires
            old(self).wf(),
        ensures
            final(self).wf(),
            final(self).max_peers == old(self).max_peers,
            final(self).password == old(self).password,
            final(self).created_at_ms == old(self).created_at_ms,
            old(self).peers@.len() >= old(self).max_peers ==> r == Err::<(), RegisterError>(
                RegisterError::RoomFull,
            ),
            old(self).peers@.len() < old(self).max_peers && old(self).ids().contains(peer_id@)
                ==> r == Err::<(), RegisterError>(RegisterError::PeerIdTaken),
            r is Ok <==> (old(self).peers@.len() < old(self).max_peers && !old(self).ids().contains(
                peer_id@,
            )),
            r is Ok ==> final(self).ids() == old(self).ids().push(peer_id@),
            r is Ok ==> final(self).peers@.len() == old(self).peers@.len() + 1,
            r is Err ==> *final(self) == *old(self),
    {
        if self.peers.len() >= self.max_peers {
            return Err(RegisterError::RoomFull);
        }
        if self.contains(&peer_id) {
            return Err(RegisterError::PeerIdTaken);
        }
        let ghost before = self.ids();
        self.peers.push(peer_id);
        assert(self.ids() =~= before.push(peer_id@));
        Ok(())
    }

    /// Removes `peer_id` if it is registered; does nothing otherwise.
    pub fn deregister(&mut self, peer_id: &String)
        requires
            old(self).wf(),
        ensures
            final(self).wf(),
            final(self).max_peers == old(self).max_peers,
            final(self).password == old(self).password,
            final(self).created_at_ms == old(self).created_at_ms,
            final(self).peer_set() == old(self).peer_set().remove(peer_id@),
            !final(self).ids().contains(peer_id@),
    {
        let mut i: usize = 0;
        while i < self.peers.len()
            invariant
                *self == *old(self),
                self.wf(),
                i <= self.peers@.len(),
                forall|j: int| 0 <= j < i ==> self.ids()[j] != peer_id@,
            decreases self.peers@.len() - i,
        {
            if self.peers[i] == *peer_id {
                let ghost before = self.ids();
                self.peers.remove(i);
                assert(self.ids() =~= before.remove(i as int));
                proof {
                    lemma_remove_distinct(before, i as int);
                }
                return;
            }
            i = i + 1;
        }
        assert(!self.ids().contains(peer_id@));
        assert(self.peer_set() =~= self.peer_set().remove(peer_id@));
    }

    /// The room's status as reported by a room check.
    pub fn status(&self) -> (r: RoomStatus)
        ensures
            r.peers == self.peers@.len(),
            r.capacity == self.max_peers,
            r.full == (self.peers@.len() >= self.max_peers),
            r.password_required == (self.password is Some),
    {
        RoomStatus {
            peers: self.peers.len(),
            capacity: self.max_peers,
            full: self.peers.len() >= self.max_peers,
            password_required: self.password.is_some(),
        }
    }

    /// The room is empty and was created more than `idle_ms` before `now_ms`.
    pub open spec fn stale(&self, now_ms: u64, idle_ms: u64) -> bool {
        self.peers@.len() == 0 && now_ms > self.created_at_ms && now_ms - self.created_at_ms
            > idle_ms
    }

    /// True when the room is empty and was created more than `idle_ms` ago.
    pub fn is_stale(&self, now_ms: u64, idle_ms: u64) -> (r: bool)
        ensures
            r == self.stale(now_ms, idle_ms),
    {
        self.peers.len() == 0 && now_ms > self.created_at_ms && now_ms - self.created_at_ms
            > idle_ms
    }
}

/// Removing one entry from a sequence without duplicates removes exactly that
/// element from its set and keeps the entries distinct.
pub proof fn lemma_remove_distinct(s: Seq<Seq<char>>, i: int)
    requires
        s.no_duplicates(),
        0 <= i < s.len(),
    ensures
        s.remove(i).no_duplicates(),
        s.remove(i).to_set() == s.to_set().remove(s[i]),
        !s.remove(i).contains(s[i]),
{
    let r = s.remove(i);
    assert forall|a: int, b: int| 0 <= a < b < r.len() implies r[a] != r[b] by {
        let a2 = if a < i { a } else { a + 1 };
        let b2 = if b < i { b } else { b + 1 };
        assert(r[a] == s[a2] && r[b] == s[b2]);
    }
    assert forall|j: int| 0 <= j < r.len() implies r[j] != s[i] by {
        let j2 = if j < i { j } else { j + 1 };
        assert(r[j] == s[j2]);
    }
    assert forall|x: Seq<char>| r.to_set().contains(x) <==> s.to_set().remove(s[i]).contains(x) by {
        if r.contains(x) {
            let j = choose|j: int| 0 <= j < r.len() && r[j] == x;
            let j2 = if j < i { j } else { j + 1 };
            assert(s[j2] == x);
        }
        if s.contains(x) && x != s[i] {
            let j = choose|j: int| 0 <= j < s.len() && s[j] == x;
            if j < i {
                assert(r[j] == x);
            } else {
                assert(j != i);
                assert(r[j - 1] == x);
            }
        }
    }
    assert(r.to_set() =~= s.to_set().remove(s[i]));
}

/// The peer set of a well-formed room never exceeds its capacity.
pub proof fn lemma_capacity_respected(room: RoomState)
    requires
        room.wf(),
    ensures
        room.peer_set().len() <= room.max_peers,
{
    room.ids().unique_seq_to_set();
}

} // verus!
