//! The room registry: a concurrent map from room key to room state, with room
//! creation, admission, registration, teardown and the stale-room sweep.

use vstd::prelude::*;
use vstd::string::StrSliceExecFns;
use vstd::utf8::encode_utf8;
use dashmap::DashMap;
use crate::ident::{is_slug, random_slug, generate_peer_id, is_id_of_len, PEER_ID_LEN};
use crate::room::{
    same_room,    ids_of,
    admission_spec, min_usize, opt_view, AdmissionError, RegisterError, RoomKey, RoomState,
    RoomStatus, MAX_PEERS_PER_ROOM,
};
use crate::types::{CreateRoomResponse, RoomInfo};

verus! {

#[verifier::external_type_specification]
#[verifier::external_body]
#[verifier::reject_recursive_types(K)]
#[verifier::reject_recursive_types(V)]
#[verifier::reject_recursive_types(S)]
pub struct ExDashMap<K, V, S>(DashMap<K, V, S>);

/// A room key as a pair of character sequences: scope, then room id.
pub type KeyView = (Seq<char>, Seq<char>);

/// The rooms of a registry, keyed by the view of each room key.
pub type RoomsView = Map<KeyView, RoomState>;

/// The map that holds the rooms.
pub type RoomMap = DashMap<RoomKey, RoomState>;

/// What a room map holds, keyed by the view of each room key.
pub uninterp spec fn rooms_of(m: RoomMap) -> RoomsView;

/// Relies on DashMap::new: the new map is empty.
#[verifier::external_body]
fn map_new() -> (r: RoomMap)
    ensures
        rooms_of(r) == RoomsView::empty(),
{
    DashMap::new()
}

/// Relies on DashMap::len: the number of entries.
#[verifier::external_body]
fn map_len(m: &RoomMap) -> (r: usize)
    ensures
        r == rooms_of(*m).len(),
{
    m.len()
}

/// Relies on DashMap::contains_key: whether an entry with an equal key is held.
#[verifier::external_body]
fn map_contains(m: &RoomMap, k: &RoomKey) -> (r: bool)
    ensures
        r == rooms_of(*m).contains_key(k@),
{
    m.contains_key(k)
}

/// Relies on DashMap::get: the entry under an equal key, copied out of the
/// read guard with the derived `Clone`, which copies each field.
#[verifier::external_body]
fn map_get(m: &RoomMap, k: &RoomKey) -> (r: Option<RoomState>)
    ensures
        r is Some <==> rooms_of(*m).contains_key(k@),
        r is Some ==> same_room(r->0, rooms_of(*m)[k@]),
{
    m.get(k).map(|e| e.value().clone())
}

/// Relies on DashMap::insert: the entry under `k` is set to `v`, replacing any
/// earlier one.
#[verifier::external_body]
fn map_insert(m: &mut RoomMap, k: RoomKey, v: RoomState)
    ensures
        rooms_of(*final(m)) == rooms_of(*old(m)).insert(k@, v),
{
    m.insert(k, v);
}

/// Relies on DashMap::remove: the entry under an equal key is taken out and
/// handed back.
#[verifier::external_body]
fn map_remove(m: &mut RoomMap, k: &RoomKey) -> (r: Option<RoomState>)
    ensures
        rooms_of(*final(m)) == rooms_of(*old(m)).remove(k@),
        r is Some <==> rooms_of(*old(m)).contains_key(k@),
        r is Some ==> r->0 == rooms_of(*old(m))[k@],
{
    m.remove(k).map(|e| e.1)
}

/// Relies on DashMap::iter: every entry is visited exactly once, in an order
/// that depends on the hasher; its key is copied out.
#[verifier::external_body]
fn map_keys(m: &RoomMap) -> (r: Vec<RoomKey>)
    ensures
        forall|i: int| 0 <= i < r@.len() ==> rooms_of(*m).contains_key(#[trigger] r@[i]@),
        forall|k: KeyView| #[trigger]
            rooms_of(*m).contains_key(k) ==> exists|i: int| 0 <= i < r@.len() && r@[i]@ == k,
        forall|i: int, j: int| 0 <= i < j < r@.len() ==> r@[i]@ != r@[j]@,
{
    m.iter().map(|e| e.key().clone()).collect()
}

/// Number of candidates drawn before room creation gives up on finding a
/// free identifier.
pub const SLUG_ATTEMPTS: usize = 10;

/// Number of peer ids drawn before a join gives up on finding one that is
/// free in the room.
pub const PEER_ID_ATTEMPTS: usize = 10;

/// Why a room could not be created.
#[derive(Clone, Copy, Debug, PartialEq, Eq)]
pub enum CreateError {
    TooManyRooms,
    SlugExhausted,
    PasswordLength,
    PasswordChars,
}

/// An ASCII letter or digit.
pub open spec fn is_alnum(c: char) -> bool {
    ('a' <= c && c <= 'z') || ('A' <= c && c <= 'Z') || ('0' <= c && c <= '9')
}

/// The verdict on a room password: 4 to 12 bytes in UTF-8, letters and
/// digits only.
pub open spec fn password_check(p: Seq<char>) -> Result<(), CreateError> {
    if encode_utf8(p).len() < 4 || encode_utf8(p).len() > 12 {
        Err(CreateError::PasswordLength)
    } else if exists|i: int| 0 <= i < p.len() && !is_alnum(#[trigger] p[i]) {
        Err(CreateError::PasswordChars)
    } else {
        Ok(())
    }
}

/// The first candidate whose key in scope `app` is not yet taken.
pub open spec fn first_free(rooms: RoomsView, app: Seq<char>, cands: Seq<Seq<char>>) -> Option<
    Seq<char>,
>
    decreases cands.len(),
{
    if cands.len() == 0 {
        None
    } else if !rooms.contains_key((app, cands[0])) {
        Some(cands[0])
    } else {
        first_free(rooms, app, cands.drop_first())
    }
}

/// No room of scope `app` is held.
pub open spec fn scope_is_empty(rooms: RoomsView, app: Seq<char>) -> bool {
    forall|k: KeyView| #[trigger] rooms.contains_key(k) ==> k.0 != app
}

/// In a scope that holds no room the first candidate is free.
pub proof fn lemma_first_free_in_empty_scope(rooms: RoomsView, app: Seq<char>, cands: Seq<Seq<char>>)
    ensures
        scope_is_empty(rooms, app) && cands.len() > 0 ==> first_free(rooms, app, cands) == Some(
            cands[0],
        ),
{
    if scope_is_empty(rooms, app) && cands.len() > 0 && rooms.contains_key((app, cands[0])) {
        assert((app, cands[0]).0 != app);
    }
}

/// A candidate returned by `first_free` is one of the candidates and is free.
pub proof fn lemma_first_free(rooms: RoomsView, app: Seq<char>, cands: Seq<Seq<char>>)
    ensures
        first_free(rooms, app, cands) is Some ==> {
            &&& cands.contains(first_free(rooms, app, cands)->0)
            &&& !rooms.contains_key((app, first_free(rooms, app, cands)->0))
        },
        first_free(rooms, app, cands) is None <==> forall|i: int|
            0 <= i < cands.len() ==> rooms.contains_key((app, #[trigger] cands[i])),
    decreases cands.len(),
{
    if cands.len() > 0 {
        lemma_first_free(rooms, app, cands.drop_first());
        if rooms.contains_key((app, cands[0])) {
            if first_free(rooms, app, cands) is Some {
                let c = first_free(rooms, app, cands)->0;
                let j = choose|j: int| 0 <= j < cands.drop_first().len() && cands.drop_first()[j] == c;
                assert(cands[j + 1] == c);
            }
            assert forall|i: int| 0 <= i < cands.len() && (forall|j: int|
                0 <= j < cands.drop_first().len() ==> rooms.contains_key((app, #[trigger] cands.drop_first()[j])))
                implies rooms.contains_key((app, #[trigger] cands[i])) by {
                if i > 0 {
                    assert(cands[i] == cands.drop_first()[i - 1]);
                }
            }
        } else {
            assert(cands[0] == cands[0]);
            assert(cands.contains(cands[0]));
        }
    }
}

/// The room that creation inserts.
pub open spec fn new_room_ok(
    room: RoomState,
    max_peers: Option<usize>,
    default_max: usize,
    password: Option<String>,
    now_ms: u64,
) -> bool {
    &&& room.peers@.len() == 0
    &&& room.max_peers == min_usize(
        match max_peers {
            Some(m) => m,
            None => default_max,
        },
        MAX_PEERS_PER_ROOM,
    )
    &&& room.password == password
    &&& room.created_at_ms == now_ms
}

/// Checks a room password: 4 to 12 bytes long, letters and digits only.
pub fn validate_password(pwd: &String) -> (r: Result<(), CreateError>)
    ensures
        r == password_check(pwd@),
{
    let s = pwd.as_str();
    let bytes = s.as_bytes().len();
    if bytes < 4 || bytes > 12 {
        return Err(CreateError::PasswordLength);
    }
    let n = s.unicode_len();
    let mut i: usize = 0;
    while i < n
        invariant
            n == pwd@.len(),
            4 <= encode_utf8(pwd@).len() <= 12,
            s@ == pwd@,
            i <= n,
            forall|j: int| 0 <= j < i ==> is_alnum(#[trigger] pwd@[j]),
        decreases n - i,
    {
        let c = s.get_char(i);
        if !(('a' <= c && c <= 'z') || ('A' <= c && c <= 'Z') || ('0' <= c && c <= '9')) {
            assert(!is_alnum(pwd@[i as int]));
            assert(exists|j: int| 0 <= j < pwd@.len() && !is_alnum(#[trigger] pwd@[j]));
            return Err(CreateError::PasswordChars);
        }
        i = i + 1;
    }
    Ok(())
}

/// The registry of rooms, with the limits it enforces.
pub struct Registry {
    rooms: RoomMap,
    max_peers_per_room: usize,
    max_global_rooms: usize,
}

impl Registry {
    /// The rooms held, keyed by the view of their keys.
    pub closed spec fn rooms(&self) -> RoomsView {
        rooms_of(self.rooms)
    }

    /// Capacity given to rooms created without one.
    pub closed spec fn peer_limit(&self) -> usize {
        self.max_peers_per_room
    }

    /// Ceiling on the number of rooms held at once.
    pub closed spec fn room_limit(&self) -> usize {
        self.max_global_rooms
    }

    /// Capacity given to rooms created without one.
    pub fn max_peers_per_room(&self) -> (r: usize)
        ensures
            r == self.peer_limit(),
    {
        self.max_peers_per_room
    }

    /// Ceiling on the number of rooms held at once.
    pub fn max_global_rooms(&self) -> (r: usize)
        ensures
            r == self.room_limit(),
    {
        self.max_global_rooms
    }

    /// Every room held is well formed.
    pub open spec fn wf(&self) -> bool {
        forall|k: KeyView| #[trigger] self.rooms().contains_key(k) ==> self.rooms()[k].wf()
    }

    /// An empty registry with the given limits.
    pub fn new(max_peers_per_room: usize, max_global_rooms: usize) -> (r: Registry)
        ensures
            r.wf(),
            r.rooms() == RoomsView::empty(),
            r.peer_limit() == max_peers_per_room,
            r.room_limit() == max_global_rooms,
    {
        Registry { rooms: map_new(), max_peers_per_room, max_global_rooms }
    }

    /// Number of rooms held.
    pub fn len(&self) -> (r: usize)
        ensures
            r == self.rooms().len(),
    {
        map_len(&self.rooms)
    }

    /// Whether a room is held under `key`.
    pub fn contains_key(&self, key: &RoomKey) -> (r: bool)
        ensures
            r == self.rooms().contains_key(key@),
    {
        map_contains(&self.rooms, key)
    }

    /// A copy of the room held under `key`.
    pub fn get(&self, key: &RoomKey) -> (r: Option<RoomState>)
        ensures
            r is Some <==> self.rooms().contains_key(key@),
            r is Some ==> same_room(r->0, self.rooms()[key@]),
    {
        map_get(&self.rooms, key)
    }

    /// The first candidate that is free as a room id in scope `app_id`.
    pub fn first_free_slug(&self, app_id: &String, candidates: &Vec<String>) -> (r: Option<String>)
        ensures
            match r {
                Some(s) => first_free(self.rooms(), app_id@, ids_of(candidates@)) == Some(s@),
                None => first_free(self.rooms(), app_id@, ids_of(candidates@)) is None,
            },
    {
        let ghost cands = ids_of(candidates@);
        let mut i: usize = 0;
        assert(cands.subrange(0, cands.len() as int) =~= cands);
        while i < candidates.len()
            invariant
                i <= candidates@.len(),
                cands == ids_of(candidates@),
                first_free(self.rooms(), app_id@, cands) == first_free(
                    self.rooms(),
                    app_id@,
                    cands.subrange(i as int, cands.len() as int),
                ),
            decreases candidates@.len() - i,
        {
            let key = RoomKey { app_id: app_id.clone(), room_id: candidates[i].clone() };
            let ghost rest = cands.subrange(i as int, cands.len() as int);
            assert(rest[0] == cands[i as int]);
            assert(rest.drop_first() =~= cands.subrange(i + 1, cands.len() as int));
            if !self.contains_key(&key) {
                return Some(candidates[i].clone());
            }
            i = i + 1;
        }
        assert(cands.subrange(i as int, cands.len() as int) =~= Seq::<Seq<char>>::empty());
        None
    }

    /// Creates a room in scope `app_id` named by the first free candidate, with
    /// capacity `max_peers` (or the registry's default), capped at the global
    /// ceiling, and an optional password.
    pub fn create_with_candidates(
        &mut self,
        app_id: &String,
        candidates: &Vec<String>,
        max_peers: Option<usize>,
        password: Option<String>,
        now_ms: u64,
    ) -> (r: Result<CreateRoomResponse, CreateError>)
        requires
            old(self).wf(),
        ensures
            final(self).wf(),
            final(self).peer_limit() == old(self).peer_limit(),
            final(self).room_limit() == old(self).room_limit(),
            old(self).rooms().len() >= old(self).room_limit() ==> r == Err::<
                CreateRoomResponse,
                CreateError,
            >(CreateError::TooManyRooms),
            old(self).rooms().len() < old(self).room_limit() && first_free(
                old(self).rooms(),
                app_id@,
                ids_of(candidates@),
            ) is None ==> r == Err::<CreateRoomResponse, CreateError>(CreateError::SlugExhausted),
            old(self).rooms().len() < old(self).room_limit() && first_free(
                old(self).rooms(),
                app_id@,
                ids_of(candidates@),
            ) is Some && password is Some && password_check(password->0@) is Err ==> r
                == Err::<CreateRoomResponse, CreateError>(password_check(password->0@)->Err_0),
            r is Err ==> final(self).rooms() == old(self).rooms(),
            r is Ok <==> {
                &&& old(self).rooms().len() < old(self).room_limit()
                &&& first_free(old(self).rooms(), app_id@, ids_of(candidates@)) is Some
                &&& (password is Some ==> password_check(password->0@) is Ok)
            },
            r is Ok ==> {
                let slug = r->Ok_0.room@;
                &&& Some(slug) == first_free(old(self).rooms(), app_id@, ids_of(candidates@))
                &&& r->Ok_0.password == password
                &&& !old(self).rooms().contains_key((app_id@, slug))
                &&& final(self).rooms() == old(self).rooms().insert(
                    (app_id@, slug),
                    final(self).rooms()[(app_id@, slug)],
                )
                &&& new_room_ok(
                    final(self).rooms()[(app_id@, slug)],
                    max_peers,
                    old(self).peer_limit(),
                    password,
                    now_ms,
                )
            },
    {
        if self.len() >= self.max_global_rooms {
            return Err(CreateError::TooManyRooms);
        }
        let slug = match self.first_free_slug(app_id, candidates) {
            Some(s) => s,
            None => return Err(CreateError::SlugExhausted),
        };
        proof {
            lemma_first_free(self.rooms(), app_id@, ids_of(candidates@));
        }
        match &password {
            Some(p) => {
                match validate_password(p) {
                    Ok(()) => {},
                    Err(e) => return Err(e),
                }
            },
            None => {},
        }
        let cap = match max_peers {
            Some(m) => m,
            None => self.max_peers_per_room,
        };
        let room = RoomState::with_capacity(cap, password.clone(), now_ms);
        let key = RoomKey { app_id: app_id.clone(), room_id: slug.clone() };
        map_insert(&mut self.rooms, key, room);
        Ok(CreateRoomResponse { room: slug, password })
    }

    /// Creates a room in scope `app_id` under a freshly drawn identifier; see
    /// `create_with_candidates` for the rules, applied here to ten random
    /// candidates.
    pub fn create(
        &mut self,
        app_id: &String,
        max_peers: Option<usize>,
        password: Option<String>,
        now_ms: u64,
    ) -> (r: Result<CreateRoomResponse, CreateError>)
        requires
            old(self).wf(),
        ensures
            final(self).wf(),
            final(self).peer_limit() == old(self).peer_limit(),
            final(self).room_limit() == old(self).room_limit(),
            r == Err::<CreateRoomResponse, CreateError>(CreateError::TooManyRooms) <==> old(
                self,
            ).rooms().len() >= old(self).room_limit(),
            old(self).rooms().len() < old(self).room_limit() && password is Some && password_check(
                password->0@,
            ) is Err ==> r == Err::<CreateRoomResponse, CreateError>(
                password_check(password->0@)->Err_0,
            ) || r == Err::<CreateRoomResponse, CreateError>(CreateError::SlugExhausted),
            old(self).rooms().len() < old(self).room_limit() && (password is Some
                ==> password_check(password->0@) is Ok) && scope_is_empty(old(self).rooms(), app_id@)
                ==> r is Ok,
            r == Err::<CreateRoomResponse, CreateError>(CreateError::SlugExhausted) ==> old(
                self,
            ).rooms().len() < old(self).room_limit() && !scope_is_empty(old(self).rooms(), app_id@),
            r is Err ==> final(self).rooms() == old(self).rooms(),
            r is Ok ==> {
                let slug = r->Ok_0.room@;
                &&& is_slug(slug)
                &&& r->Ok_0.password == password
                &&& !old(self).rooms().contains_key((app_id@, slug))
                &&& final(self).rooms() == old(self).rooms().insert(
                    (app_id@, slug),
                    final(self).rooms()[(app_id@, slug)],
                )
                &&& new_room_ok(
                    final(self).rooms()[(app_id@, slug)],
                    max_peers,
                    old(self).peer_limit(),
                    password,
                    now_ms,
                )
            },
    {
        let candidates = draw_slug_candidates();
        let r = self.create_with_candidates(app_id, &candidates, max_peers, password, now_ms);
        proof {
            lemma_first_free(old(self).rooms(), app_id@, ids_of(candidates@));
            lemma_first_free_in_empty_scope(old(self).rooms(), app_id@, ids_of(candidates@));
            if r is Ok {
                let c = r->Ok_0.room@;
                let j = choose|j: int| 0 <= j < ids_of(candidates@).len() && ids_of(candidates@)[j] == c;
                assert(is_slug(candidates@[j]@));
            }
        }
        r
    }

    /// The advisory admission check for a connection to the room under `key`.
    pub fn check_admission(&self, key: &RoomKey, provided: Option<&String>) -> (r: Result<
        (),
        AdmissionError,
    >)
        ensures
            !self.rooms().contains_key(key@) ==> r == Err::<(), AdmissionError>(
                AdmissionError::NotFound,
            ),
            self.rooms().contains_key(key@) ==> r == admission_spec(
                opt_view(self.rooms()[key@].password),
                match provided {
                    Some(s) => Some(s@),
                    None => None,
                },
                self.rooms()[key@].peers@.len(),
                self.rooms()[key@].max_peers as nat,
            ),
    {
        match self.get(key) {
            Some(room) => room.check_admission(provided),
            None => Err(AdmissionError::NotFound),
        }
    }

    /// The status of the room under `key`, if there is one.
    pub fn status(&self, key: &RoomKey) -> (r: Option<RoomStatus>)
        ensures
            r is Some <==> self.rooms().contains_key(key@),
            r is Some ==> {
                let room = self.rooms()[key@];
                &&& r->0.peers == room.peers@.len()
                &&& r->0.capacity == room.max_peers
                &&& r->0.full == (room.peers@.len() >= room.max_peers)
                &&& r->0.password_required == (room.password is Some)
            },
    {
        match self.get(key) {
            Some(room) => Some(room.status()),
            None => None,
        }
    }

    /// Registers `peer_id` in the room under `key`: the binding capacity
    /// check, made together with the insertion.
    pub fn register(&mut self, key: &RoomKey, peer_id: String) -> (r: Result<(), RegisterError>)
        requires
            old(self).wf(),
        ensures
            final(self).wf(),
            final(self).peer_limit() == old(self).peer_limit(),
            final(self).room_limit() == old(self).room_limit(),
            !old(self).rooms().contains_key(key@) ==> r == Err::<(), RegisterError>(
                RegisterError::NotFound,
            ),
            old(self).rooms().contains_key(key@) ==> register_spec(
                old(self).rooms()[key@],
                peer_id@,
                r,
            ),
            r is Err ==> final(self).rooms() == old(self).rooms(),
            r is Ok ==> registered(old(self).rooms(), final(self).rooms(), key@, peer_id@),
    {
        let removed = map_remove(&mut self.rooms, key);
        match removed {
            None => {
                proof {
                    assert(rooms_of(self.rooms) =~= rooms_of(old(self).rooms));
                    assert(self.rooms() == old(self).rooms());
                }
                Err(RegisterError::NotFound)
            },
            Some(room) => {
                let mut room = room;
                proof {
                    assert(old(self).rooms().contains_key(key@));
                }
                let r = room.register(peer_id);
                map_insert(&mut self.rooms, key.duplicate(), room);
                proof {
                    assert(self.rooms() =~= old(self).rooms().insert(key@, room));
                    if r is Err {
                        assert(self.rooms() =~= old(self).rooms());
                    }
                }
                r
            },
        }
    }

    /// Registers in the room under `key` the first candidate id that is not
    /// already taken there.
    pub fn join_with_candidates(&mut self, key: &RoomKey, candidates: &Vec<String>) -> (r: Result<
        String,
        RegisterError,
    >)
        requires
            old(self).wf(),
        ensures
            final(self).wf(),
            final(self).peer_limit() == old(self).peer_limit(),
            final(self).room_limit() == old(self).room_limit(),
            r is Err ==> final(self).rooms() == old(self).rooms(),
            !old(self).rooms().contains_key(key@) ==> r == Err::<String, RegisterError>(
                RegisterError::NotFound,
            ),
            old(self).rooms().contains_key(key@) ==> {
                let room = old(self).rooms()[key@];
                let pick = first_absent(room.ids(), ids_of(candidates@));
                &&& room.peers@.len() >= room.max_peers ==> r == Err::<String, RegisterError>(
                    RegisterError::RoomFull,
                )
                &&& room.peers@.len() < room.max_peers && pick is None ==> r == Err::<
                    String,
                    RegisterError,
                >(RegisterError::PeerIdTaken)
                &&& room.peers@.len() < room.max_peers && pick is Some ==> {
                    &&& r is Ok
                    &&& r->Ok_0@ == pick->0
                    &&& registered(old(self).rooms(), final(self).rooms(), key@, pick->0)
                }
            },
    {
        if !self.contains_key(key) {
            return Err(RegisterError::NotFound);
        }
        let ghost ids = self.rooms()[key@].ids();
        let ghost cands = ids_of(candidates@);
        assert(cands.subrange(0, cands.len() as int) =~= cands);
        let mut i: usize = 0;
        while i < candidates.len()
            invariant
                self.wf(),
                self.rooms() == old(self).rooms(),
                self.peer_limit() == old(self).peer_limit(),
                self.room_limit() == old(self).room_limit(),
                self.rooms().contains_key(key@),
                ids == self.rooms()[key@].ids(),
                cands == ids_of(candidates@),
                i <= candidates@.len(),
                i > 0 ==> self.rooms()[key@].peers@.len() < self.rooms()[key@].max_peers,
                first_absent(ids, cands) == first_absent(
                    ids,
                    cands.subrange(i as int, cands.len() as int),
                ),
            decreases candidates@.len() - i,
        {
            let ghost rest = cands.subrange(i as int, cands.len() as int);
            assert(rest[0] == cands[i as int]);
            assert(rest.drop_first() =~= cands.subrange(i + 1, cands.len() as int));
            let peer_id = candidates[i].clone();
            match self.register(key, peer_id.clone()) {
                Ok(()) => return Ok(peer_id),
                Err(RegisterError::PeerIdTaken) => {},
                Err(e) => return Err(e),
            }
            i = i + 1;
        }
        assert(cands.subrange(i as int, cands.len() as int) =~= Seq::<Seq<char>>::empty());
        if self.get(key).unwrap().peer_count() >= self.get(key).unwrap().max_peers {
            return Err(RegisterError::RoomFull);
        }
        Err(RegisterError::PeerIdTaken)
    }

    /// Registers a freshly drawn peer id in the room under `key`, drawing ten
    /// candidates so that an id already taken there is passed over.
    pub fn join(&mut self, key: &RoomKey) -> (r: Result<String, RegisterError>)
        requires
            old(self).wf(),
        ensures
            final(self).wf(),
            final(self).peer_limit() == old(self).peer_limit(),
            final(self).room_limit() == old(self).room_limit(),
            !old(self).rooms().contains_key(key@) ==> r == Err::<String, RegisterError>(
                RegisterError::NotFound,
            ),
            old(self).rooms().contains_key(key@) && old(self).rooms()[key@].peers@.len()
                >= old(self).rooms()[key@].max_peers ==> r == Err::<String, RegisterError>(
                RegisterError::RoomFull,
            ),
            old(self).rooms().contains_key(key@) && old(self).rooms()[key@].peers@.len() == 0
                && old(self).rooms()[key@].max_peers > 0 ==> r is Ok,
            r is Err ==> final(self).rooms() == old(self).rooms(),
            r is Ok ==> {
                &&& is_id_of_len(r->Ok_0@, PEER_ID_LEN as nat)
                &&& old(self).rooms().contains_key(key@)
                &&& old(self).rooms()[key@].peers@.len() < old(self).rooms()[key@].max_peers
                &&& !old(self).rooms()[key@].ids().contains(r->Ok_0@)
                &&& registered(old(self).rooms(), final(self).rooms(), key@, r->Ok_0@)
            },
    {
        let candidates = draw_peer_id_candidates();
        let r = self.join_with_candidates(key, &candidates);
        proof {
            if old(self).rooms().contains_key(key@) {
                let room = old(self).rooms()[key@];
                lemma_first_absent(room.ids(), ids_of(candidates@));
                if room.peers@.len() == 0 {
                    let cands = ids_of(candidates@);
                    assert(room.ids().len() == 0);
                    assert(!room.ids().contains(cands[0]));
                    assert(first_absent(room.ids(), cands) == Some(cands[0]));
                }
                if r is Ok {
                    let c = r->Ok_0@;
                    let j = choose|j: int|
                        0 <= j < ids_of(candidates@).len() && ids_of(candidates@)[j] == c;
                    assert(is_id_of_len(candidates@[j]@, PEER_ID_LEN as nat));
                }
            }
        }
        r
    }

    /// Removes `peer_id` from the room under `key`, if both are present.
    pub fn deregister(&mut self, key: &RoomKey, peer_id: &String)
        requires
            old(self).wf(),
        ensures
            final(self).wf(),
            final(self).peer_limit() == old(self).peer_limit(),
            final(self).room_limit() == old(self).room_limit(),
            !old(self).rooms().contains_key(key@) ==> final(self).rooms() == old(self).rooms(),
            old(self).rooms().contains_key(key@) ==> {
                let before = old(self).rooms()[key@];
                let after = final(self).rooms()[key@];
                &&& final(self).rooms() == old(self).rooms().insert(key@, after)
                &&& after.peer_set() == before.peer_set().remove(peer_id@)
                &&& !after.ids().contains(peer_id@)
                &&& after.max_peers == before.max_peers
                &&& after.password == before.password
                &&& after.created_at_ms == before.created_at_ms
            },
    {
        let removed = map_remove(&mut self.rooms, key);
        match removed {
            None => {
                proof {
                    assert(rooms_of(self.rooms) =~= rooms_of(old(self).rooms));
                }
            },
            Some(room) => {
                let mut room = room;
                proof {
                    assert(old(self).rooms().contains_key(key@));
                }
                room.deregister(peer_id);
                map_insert(&mut self.rooms, key.duplicate(), room);
                proof {
                    assert(self.rooms() =~= old(self).rooms().insert(key@, room));
                }
            },
        }
    }

    /// Removes the room under `key` if it has no peers; true when it did.
    pub fn remove_if_empty(&mut self, key: &RoomKey) -> (r: bool)
        requires
            old(self).wf(),
        ensures
            final(self).wf(),
            final(self).peer_limit() == old(self).peer_limit(),
            final(self).room_limit() == old(self).room_limit(),
            r == (old(self).rooms().contains_key(key@) && old(self).rooms()[key@].peers@.len()
                == 0),
            r ==> final(self).rooms() == old(self).rooms().remove(key@),
            !r ==> final(self).rooms() == old(self).rooms(),
    {
        match self.get(key) {
            Some(room) => {
                if room.peer_count() == 0 {
                    map_remove(&mut self.rooms, key);
                    true
                } else {
                    false
                }
            },
            None => false,
        }
    }

    /// Removes every room that is empty and older than `idle_ms`; returns how
    /// many were removed.
    pub fn sweep(&mut self, now_ms: u64, idle_ms: u64) -> (r: usize)
        requires
            old(self).wf(),
        ensures
            final(self).wf(),
            final(self).peer_limit() == old(self).peer_limit(),
            final(self).room_limit() == old(self).room_limit(),
            forall|k: KeyView| #[trigger]
                final(self).rooms().contains_key(k) <==> old(self).rooms().contains_key(k)
                    && !old(self).rooms()[k].stale(now_ms, idle_ms),
            forall|k: KeyView| #[trigger]
                final(self).rooms().contains_key(k) ==> final(self).rooms()[k] == old(
                    self,
                ).rooms()[k],
    {
        let keys = map_keys(&self.rooms);
        let mut removed: usize = 0;
        let mut i: usize = 0;
        while i < keys.len()
            invariant
                i <= keys@.len(),
                removed <= i,
                self.peer_limit() == old(self).peer_limit(),
                self.room_limit() == old(self).room_limit(),
                forall|j: int| 0 <= j < keys@.len() ==> old(self).rooms().contains_key(
                    #[trigger] keys@[j]@,
                ),
                forall|k: KeyView| #[trigger]
                    old(self).rooms().contains_key(k) ==> exists|j: int|
                        0 <= j < keys@.len() && keys@[j]@ == k,
                forall|k: KeyView| #[trigger]
                    self.rooms().contains_key(k) ==> old(self).rooms().contains_key(k)
                        && self.rooms()[k] == old(self).rooms()[k],
                forall|k: KeyView| #[trigger]
                    old(self).rooms().contains_key(k) && !old(self).rooms()[k].stale(
                        now_ms,
                        idle_ms,
                    ) ==> self.rooms().contains_key(k),
                forall|j: int|
                    0 <= j < i ==> !(#[trigger] old(self).rooms()[keys@[j]@].stale(now_ms, idle_ms))
                        || !self.rooms().contains_key(keys@[j]@),
                old(self).wf(),
            decreases keys@.len() - i,
        {
            let key = &keys[i];
            match self.get(key) {
                Some(room) => {
                    if room.is_stale(now_ms, idle_ms) {
                        map_remove(&mut self.rooms, key);
                        removed = removed + 1;
                    }
                },
                None => {},
            }
            i = i + 1;
        }
        proof {
            assert forall|k: KeyView| #[trigger]
                final(self).rooms().contains_key(k) <==> old(self).rooms().contains_key(k)
                    && !old(self).rooms()[k].stale(now_ms, idle_ms) by {
                if old(self).rooms().contains_key(k) && old(self).rooms()[k].stale(now_ms, idle_ms) {
                    let j = choose|j: int| 0 <= j < keys@.len() && keys@[j]@ == k;
                    assert(!(#[trigger] old(self).rooms()[keys@[j]@].stale(now_ms, idle_ms))
                        || !self.rooms().contains_key(keys@[j]@));
                }
            }
        }
        removed
    }

    /// One line per room, for the administrative listing.
    pub fn room_infos(&self) -> (r: Vec<RoomInfo>)
        ensures
            forall|i: int| #![trigger r@[i]]
                0 <= i < r@.len() ==> {
                    let k = (r@[i].app_id@, r@[i].id@);
                    &&& self.rooms().contains_key(k)
                    &&& r@[i].peers == self.rooms()[k].peers@.len()
                    &&& r@[i].capacity == self.peer_limit()
                },
            forall|k: KeyView| #[trigger]
                self.rooms().contains_key(k) ==> exists|i: int|
                    0 <= i < r@.len() && r@[i].app_id@ == k.0 && r@[i].id@ == k.1,
            forall|i: int, j: int|
                0 <= i < j < r@.len() ==> (r@[i].app_id@, r@[i].id@) != (r@[j].app_id@, r@[j].id@),
            r@.len() == self.rooms().len(),
    {
        let keys = map_keys(&self.rooms);
        proof {
            lemma_keys_count(self.rooms(), keys@);
        }
        let mut out: Vec<RoomInfo> = Vec::new();
        let mut i: usize = 0;
        while i < keys.len()
            invariant
                i <= keys@.len(),
                forall|j: int| 0 <= j < keys@.len() ==> self.rooms().contains_key(
                    #[trigger] keys@[j]@,
                ),
                forall|k: KeyView| #[trigger]
                    self.rooms().contains_key(k) ==> exists|j: int|
                        0 <= j < keys@.len() && keys@[j]@ == k,
                out@.len() == i,
                forall|j: int| #![trigger out@[j]]
                    0 <= j < i ==> {
                        let k = (out@[j].app_id@, out@[j].id@);
                        &&& k == keys@[j]@
                        &&& self.rooms().contains_key(k)
                        &&& out@[j].peers == self.rooms()[k].peers@.len()
                        &&& out@[j].capacity == self.peer_limit()
                    },
            decreases keys@.len() - i,
        {
            let key = &keys[i];
            match self.get(key) {
                Some(room) => {
                    let info = RoomInfo {
                        id: key.room_id.clone(),
                        app_id: key.app_id.clone(),
                        peers: room.peer_count(),
                        capacity: self.max_peers_per_room,
                    };
                    out.push(info);
                    assert(out@[i as int] == info);
                },
                None => {},
            }
            i = i + 1;
        }
        proof {
            assert forall|a: int, b: int|
                0 <= a < b < out@.len() implies (out@[a].app_id@, out@[a].id@) != (
                out@[b].app_id@,
                out@[b].id@,
            ) by {
                assert(keys@[a]@ != keys@[b]@);
            }
            assert forall|k: KeyView| #[trigger] self.rooms().contains_key(k) implies exists|m: int|
                0 <= m < out@.len() && out@[m].app_id@ == k.0 && out@[m].id@ == k.1 by {
                let j = choose|j: int| 0 <= j < keys@.len() && keys@[j]@ == k;
                assert(out@[j].app_id@ == k.0 && out@[j].id@ == k.1);
            }
        }
        out
    }
}

/// The outcome of registering `peer` in `room`: full rooms refuse first, then
/// a taken id; otherwise the peer is added.
pub open spec fn register_spec(room: RoomState, peer: Seq<char>, r: Result<(), RegisterError>) -> bool {
    &&& room.peers@.len() >= room.max_peers ==> r == Err::<(), RegisterError>(RegisterError::RoomFull)
    &&& room.peers@.len() < room.max_peers && room.ids().contains(peer) ==> r == Err::<
        (),
        RegisterError,
    >(RegisterError::PeerIdTaken)
    &&& r is Ok <==> (room.peers@.len() < room.max_peers && !room.ids().contains(peer))
}

/// `after` is `before` with `peer` added to the room under `k` and nothing
/// else changed.
pub open spec fn registered(before: RoomsView, after: RoomsView, k: KeyView, peer: Seq<char>) -> bool {
    let b = before[k];
    let a = after[k];
    &&& before.contains_key(k)
    &&& after == before.insert(k, a)
    &&& a.ids() == b.ids().push(peer)
    &&& a.max_peers == b.max_peers
    &&& a.password == b.password
    &&& a.created_at_ms == b.created_at_ms
}

/// The first candidate that is not among `ids`.
pub open spec fn first_absent(ids: Seq<Seq<char>>, cands: Seq<Seq<char>>) -> Option<Seq<char>>
    decreases cands.len(),
{
    if cands.len() == 0 {
        None
    } else if !ids.contains(cands[0]) {
        Some(cands[0])
    } else {
        first_absent(ids, cands.drop_first())
    }
}

/// A candidate returned by `first_absent` is one of the candidates and is
/// not among `ids`.
pub proof fn lemma_first_absent(ids: Seq<Seq<char>>, cands: Seq<Seq<char>>)
    ensures
        first_absent(ids, cands) is Some ==> {
            &&& cands.contains(first_absent(ids, cands)->0)
            &&& !ids.contains(first_absent(ids, cands)->0)
        },
    decreases cands.len(),
{
    if cands.len() > 0 {
        lemma_first_absent(ids, cands.drop_first());
        if ids.contains(cands[0]) {
            if first_absent(ids, cands) is Some {
                let c = first_absent(ids, cands)->0;
                let j = choose|j: int| 0 <= j < cands.drop_first().len() && cands.drop_first()[j] == c;
                assert(cands[j + 1] == c);
            }
        } else {
            assert(cands[0] == cands[0]);
            assert(cands.contains(cands[0]));
        }
    }
}

/// Ten random candidates for a peer id.
pub fn draw_peer_id_candidates() -> (r: Vec<String>)
    ensures
        r@.len() == PEER_ID_ATTEMPTS,
        forall|i: int| 0 <= i < r@.len() ==> is_id_of_len(#[trigger] r@[i]@, PEER_ID_LEN as nat),
{
    let mut out: Vec<String> = Vec::new();
    while out.len() < PEER_ID_ATTEMPTS
        invariant
            out@.len() <= PEER_ID_ATTEMPTS,
            forall|i: int| 0 <= i < out@.len() ==> is_id_of_len(#[trigger] out@[i]@, PEER_ID_LEN as nat),
        decreases PEER_ID_ATTEMPTS - out@.len(),
    {
        let s = generate_peer_id();
        out.push(s);
        assert(out@[out@.len() - 1] == s);
    }
    out
}

/// Ten random candidates for a room identifier.
pub fn draw_slug_candidates() -> (r: Vec<String>)
    ensures
        r@.len() == SLUG_ATTEMPTS,
        forall|i: int| 0 <= i < r@.len() ==> is_slug(#[trigger] r@[i]@),
{
    let mut out: Vec<String> = Vec::new();
    while out.len() < SLUG_ATTEMPTS
        invariant
            out@.len() <= SLUG_ATTEMPTS,
            forall|i: int| 0 <= i < out@.len() ==> is_slug(#[trigger] out@[i]@),
        decreases SLUG_ATTEMPTS - out@.len(),
    {
        let s = random_slug();
        out.push(s);
        assert(out@[out@.len() - 1] == s);
    }
    out
}

/// A room identifier that is free in scope `app_id`, picked from ten random
/// candidates, or `None` when all ten are taken.
pub fn generate_unique_slug(rooms: &Registry, app_id: &String) -> (r: Option<String>)
    ensures
        r is Some ==> is_slug(r->0@) && !rooms.rooms().contains_key((app_id@, r->0@)),
        scope_is_empty(rooms.rooms(), app_id@) ==> r is Some,
{
    let candidates = draw_slug_candidates();
    let r = rooms.first_free_slug(app_id, &candidates);
    proof {
        lemma_first_free_in_empty_scope(rooms.rooms(), app_id@, ids_of(candidates@));
        lemma_first_free(rooms.rooms(), app_id@, ids_of(candidates@));
        if r is Some {
            let c = r->0@;
            let j = choose|j: int| 0 <= j < ids_of(candidates@).len() && ids_of(candidates@)[j] == c;
            assert(is_slug(candidates@[j]@));
        }
    }
    r
}

/// A list of distinct keys that names every room and nothing else has one
/// entry per room.
proof fn lemma_keys_count(rooms: RoomsView, keys: Seq<RoomKey>)
    requires
        forall|i: int| 0 <= i < keys.len() ==> rooms.contains_key(#[trigger] keys[i]@),
        forall|k: KeyView| #[trigger]
            rooms.contains_key(k) ==> exists|i: int| 0 <= i < keys.len() && keys[i]@ == k,
        forall|i: int, j: int| 0 <= i < j < keys.len() ==> keys[i]@ != keys[j]@,
    ensures
        rooms.dom().finite(),
        rooms.len() == keys.len(),
{
    let kv = keys.map_values(|k: RoomKey| k@);
    assert forall|i: int, j: int| 0 <= i < kv.len() && 0 <= j < kv.len() && i != j implies kv[i]
        != kv[j] by {
        if i < j {
            assert(keys[i]@ != keys[j]@);
        } else {
            assert(keys[j]@ != keys[i]@);
        }
    }
    assert forall|k: KeyView| kv.to_set().contains(k) <==> rooms.dom().contains(k) by {
        if rooms.contains_key(k) {
            let i = choose|i: int| 0 <= i < keys.len() && keys[i]@ == k;
            assert(kv[i] == k);
        }
        if kv.contains(k) {
            let i = choose|i: int| 0 <= i < kv.len() && kv[i] == k;
            assert(rooms.contains_key(keys[i]@));
        }
    }
    assert(kv.to_set() =~= rooms.dom());
    kv.unique_seq_to_set();
}

/// In a well-formed registry no room holds more peers than its capacity.
pub proof fn lemma_rooms_within_capacity(reg: Registry, k: KeyView)
    requires
        reg.wf(),
        reg.rooms().contains_key(k),
    ensures
        reg.rooms()[k].peer_set().len() <= reg.rooms()[k].max_peers,
{
    crate::room::lemma_capacity_respected(reg.rooms()[k]);
}

/// Number of successful outcomes.
pub open spec fn count_ok(rs: Seq<Result<(), RegisterError>>) -> nat
    decreases rs.len(),
{
    if rs.len() == 0 {
        0
    } else {
        count_ok(rs.drop_last()) + if rs.last() is Ok {
            1nat
        } else {
            0nat
        }
    }
}

/// `rooms[i + 1]` is what a registration of `peers[i]` with outcome
/// `outcomes[i]` makes of `rooms[i]`.
pub open spec fn registration_run(
    rooms: Seq<RoomState>,
    peers: Seq<Seq<char>>,
    outcomes: Seq<Result<(), RegisterError>>,
) -> bool {
    &&& rooms.len() == outcomes.len() + 1
    &&& peers.len() == outcomes.len()
    &&& rooms[0].wf()
    &&& forall|i: int| #![trigger outcomes[i]]
        0 <= i < outcomes.len() ==> {
            &&& register_spec(rooms[i], peers[i], outcomes[i])
            &&& rooms[i + 1].wf()
            &&& rooms[i + 1].max_peers == rooms[i].max_peers
            &&& outcomes[i] is Ok ==> rooms[i + 1].ids() == rooms[i].ids().push(peers[i])
            &&& outcomes[i] is Err ==> rooms[i + 1] == rooms[i]
        }
}

/// However many registrations race on one room, one after another under its
/// lock, at most as many succeed as it had free places.
pub proof fn lemma_at_most_capacity_succeed(
    rooms: Seq<RoomState>,
    peers: Seq<Seq<char>>,
    outcomes: Seq<Result<(), RegisterError>>,
)
    requires
        registration_run(rooms, peers, outcomes),
    ensures
        count_ok(outcomes) <= rooms[0].max_peers - rooms[0].peers@.len(),
    decreases outcomes.len(),
{
    lemma_run_counts(rooms, peers, outcomes);
    let n = outcomes.len() as int;
    assert(rooms[n].peers@.len() <= rooms[n].max_peers);
}

proof fn lemma_run_counts(
    rooms: Seq<RoomState>,
    peers: Seq<Seq<char>>,
    outcomes: Seq<Result<(), RegisterError>>,
)
    requires
        registration_run(rooms, peers, outcomes),
    ensures
        rooms[outcomes.len() as int].peers@.len() == rooms[0].peers@.len() + count_ok(outcomes),
        rooms[outcomes.len() as int].max_peers == rooms[0].max_peers,
        rooms[outcomes.len() as int].wf(),
    decreases outcomes.len(),
{
    let n = outcomes.len() as int;
    if n > 0 {
        let rs = rooms.drop_last();
        let pe = peers.drop_last();
        let os = outcomes.drop_last();
        assert forall|i: int| #![trigger os[i]] 0 <= i < os.len() implies {
            &&& register_spec(rs[i], pe[i], os[i])
            &&& rs[i + 1].wf()
            &&& rs[i + 1].max_peers == rs[i].max_peers
            &&& os[i] is Ok ==> rs[i + 1].ids() == rs[i].ids().push(pe[i])
            &&& os[i] is Err ==> rs[i + 1] == rs[i]
        } by {
            assert(outcomes[i] == os[i]);
        }
        lemma_run_counts(rs, pe, os);
        assert(outcomes[n - 1] == outcomes.last());
        if outcomes[n - 1] is Ok {
            assert(rooms[n].ids().len() == rooms[n - 1].ids().len() + 1);
        }
    }
}

/// When every candidate identifier is already taken in the scope, none is
/// picked and room creation reports exhaustion.
pub proof fn lemma_slug_exhausted(rooms: RoomsView, app: Seq<char>, cands: Seq<Seq<char>>)
    requires
        forall|i: int| 0 <= i < cands.len() ==> rooms.contains_key((app, #[trigger] cands[i])),
    ensures
        first_free(rooms, app, cands) is None,
{
    lemma_first_free(rooms, app, cands);
}

} // verus!
