//! The request-level rules of the room API: scope and id checks, API keys,
//! room creation from query parameters, room checks, connection admission and
//! the administrative views. Transport and encoding are left to the caller.

use vstd::prelude::*;
use vstd::string::StrSliceExecFns;
use vstd::utf8::encode_utf8;
use vstd::set::fold::{is_fun_commutative, lemma_fold_empty, lemma_fold_insert};
use std::collections::HashMap;
use crate::registry::{password_check, scope_is_empty, CreateError, KeyView, Registry};
use crate::room::{admission_spec, AdmissionError, RoomKey, RoomStatus};
use crate::types::{AdminRoomsResponse, CreateRoomResponse, MetricsResponse, RoomInfo};

verus! {

/// Scope used when a request names none.
pub const DEFAULT_APP_ID: &'static str = "public";

/// Relies on HashMap::get: the value stored under a key equal to `name`,
/// copied out.
#[verifier::external_body]
fn param_get(params: &HashMap<String, String>, name: &str) -> (r: Option<String>)
    ensures
        r is Some <==> params.deep_view().contains_key(name@),
        r is Some ==> r->0@ == params.deep_view()[name@],
{
    params.get(name).cloned()
}

/// The value of query parameter `name`, if present.
pub open spec fn param_of(params: Map<Seq<char>, Seq<char>>, name: Seq<char>) -> Option<Seq<char>> {
    if params.contains_key(name) {
        Some(params[name])
    } else {
        None
    }
}

/// The application scope named by the `appId` parameter, or `public`.
pub open spec fn app_id_of(params: Map<Seq<char>, Seq<char>>) -> Seq<char> {
    match param_of(params, "appId"@) {
        Some(a) => a,
        None => DEFAULT_APP_ID@,
    }
}

/// The value of query parameter `name`, if present.
pub fn query_param(params: &HashMap<String, String>, name: &str) -> (r: Option<String>)
    ensures
        match r {
            Some(s) => param_of(params.deep_view(), name@) == Some(s@),
            None => param_of(params.deep_view(), name@) is None,
        },
{
    param_get(params, name)
}

/// The application scope of a request: its `appId` parameter, or `public`.
pub fn get_app_id(params: &HashMap<String, String>) -> (r: String)
    ensures
        r@ == app_id_of(params.deep_view()),
{
    proof {
        reveal_strlit("appId");
    }
    match param_get(params, "appId") {
        Some(a) => a,
        None => DEFAULT_APP_ID.to_owned(),
    }
}

/// A character allowed in a room id: an ASCII letter, a digit or a hyphen.
pub open spec fn is_room_id_char(c: char) -> bool {
    ('a' <= c && c <= 'z') || ('A' <= c && c <= 'Z') || ('0' <= c && c <= '9') || c == '-'
}

/// The error code for a malformed room id: 4 to 32 bytes in UTF-8, each
/// character a letter, a digit or a hyphen.
pub open spec fn room_id_error(s: Seq<char>) -> Option<Seq<char>> {
    if encode_utf8(s).len() < 4 || encode_utf8(s).len() > 32 {
        Some("invalid_room_id_length"@)
    } else if exists|i: int| 0 <= i < s.len() && !is_room_id_char(#[trigger] s[i]) {
        Some("invalid_room_id_chars"@)
    } else {
        None
    }
}

/// Checks the format of a room id: 4 to 32 bytes long, each character an
/// ASCII letter, a digit or a hyphen.
pub fn validate_room_id(room_id: &str) -> (r: Result<(), &'static str>)
    ensures
        match r {
            Ok(()) => room_id_error(room_id@) is None,
            Err(code) => room_id_error(room_id@) == Some(code@),
        },
{
    proof {
        reveal_strlit("invalid_room_id_length");
        reveal_strlit("invalid_room_id_chars");
    }
    let bytes = room_id.as_bytes().len();
    if bytes < 4 || bytes > 32 {
        return Err("invalid_room_id_length");
    }
    let n = room_id.unicode_len();
    let mut i: usize = 0;
    while i < n
        invariant
            n == room_id@.len(),
            4 <= encode_utf8(room_id@).len() <= 32,
            i <= n,
            forall|j: int| 0 <= j < i ==> is_room_id_char(#[trigger] room_id@[j]),
        decreases n - i,
    {
        let c = room_id.get_char(i);
        if !(('a' <= c && c <= 'z') || ('A' <= c && c <= 'Z') || ('0' <= c && c <= '9') || c
            == '-') {
            assert(!is_room_id_char(room_id@[i as int]));
            return Err("invalid_room_id_chars");
        }
        i = i + 1;
    }
    Ok(())
}

/// Whether a request carries the server's API key, in its `x-api-key` header
/// or its `apiKey` query parameter. Without a configured key every request
/// passes.
pub fn validate_api_key(
    state_key: &Option<String>,
    header_key: Option<&String>,
    query_key: Option<&String>,
) -> (r: bool)
    ensures
        r == match state_key {
            None => true,
            Some(k) => (header_key is Some && header_key->0@ == k@) || (query_key is Some
                && query_key->0@ == k@),
        },
{
    match state_key {
        None => true,
        Some(k) => {
            let by_header = match header_key {
                Some(h) => *h == *k,
                None => false,
            };
            let by_query = match query_key {
                Some(q) => *q == *k,
                None => false,
            };
            by_header || by_query
        },
    }
}

/// A decimal digit.
pub open spec fn is_digit(c: char) -> bool {
    '0' <= c && c <= '9'
}

/// The value of a string of decimal digits.
pub open spec fn digits_value(s: Seq<char>) -> int
    decreases s.len(),
{
    if s.len() == 0 {
        0
    } else {
        digits_value(s.drop_last()) * 10 + (s.last() as int - '0' as int)
    }
}

/// The digits of an unsigned decimal: the text without an optional leading
/// `+`.
pub open spec fn unsigned_digits(s: Seq<char>) -> Seq<char> {
    if s.len() > 0 && s[0] == '+' {
        s.drop_first()
    } else {
        s
    }
}

/// The value of `s` read as an unsigned decimal that fits a `usize`.
pub open spec fn usize_value(s: Seq<char>) -> Option<usize> {
    let d = unsigned_digits(s);
    if d.len() > 0 && (forall|i: int| 0 <= i < d.len() ==> is_digit(#[trigger] d[i]))
        && digits_value(d) <= usize::MAX {
        Some(digits_value(d) as usize)
    } else {
        None
    }
}

proof fn lemma_digits_value_nonneg(s: Seq<char>)
    requires
        forall|i: int| 0 <= i < s.len() ==> is_digit(#[trigger] s[i]),
    ensures
        digits_value(s) >= 0,
    decreases s.len(),
{
    if s.len() > 0 {
        let t = s.drop_last();
        assert forall|i: int| 0 <= i < t.len() implies is_digit(#[trigger] t[i]) by {
            assert(t[i] == s[i]);
        }
        lemma_digits_value_nonneg(t);
        assert(is_digit(s[s.len() - 1]));
    }
}

/// Reads an unsigned decimal number (an optional `+` and at least one digit)
/// that fits a `usize`.
pub fn parse_usize(s: &str) -> (r: Option<usize>)
    ensures
        r == usize_value(s@),
{
    let n = s.unicode_len();
    let start: usize = if n > 0 && s.get_char(0) == '+' {
        1
    } else {
        0
    };
    let ghost d = unsigned_digits(s@);
    assert(d =~= s@.subrange(start as int, n as int));
    if start >= n {
        return None;
    }
    let mut value: usize = 0;
    let mut i: usize = start;
    while i < n
        invariant
            n == s@.len(),
            start <= i <= n,
            start < n,
            d == s@.subrange(start as int, n as int),
            d == unsigned_digits(s@),
            forall|j: int| start <= j < i ==> is_digit(#[trigger] s@[j]),
            value as int == digits_value(s@.subrange(start as int, i as int)),
        decreases n - i,
    {
        let c = s.get_char(i);
        let ghost prefix = s@.subrange(start as int, i as int);
        let ghost next = s@.subrange(start as int, i + 1);
        assert(next.drop_last() =~= prefix);
        assert(next.last() == c);
        if !('0' <= c && c <= '9') {
            assert(d[i - start] == c);
            assert(!is_digit(d[i - start]));
            assert(!(forall|j: int| 0 <= j < d.len() ==> is_digit(#[trigger] d[j])));
            return None;
        }
        let digit = (c as u32 - '0' as u32) as usize;
        let times = value.checked_mul(10);
        match times {
            None => {
                proof {
                    lemma_rest_too_large(s@, start as int, i as int, n as int);
                    lemma_none_when_large(s@, start as int, n as int);
                }
                return None;
            },
            Some(t) => match t.checked_add(digit) {
                None => {
                    proof {
                        assert(digits_value(next) > usize::MAX);
                        assert(digits_value(next) * 10 > usize::MAX) by (nonlinear_arith)
                            requires
                                digits_value(next) > usize::MAX,
                        ;
                        lemma_rest_too_large(s@, start as int, (i + 1) as int, n as int);
                        lemma_none_when_large(s@, start as int, n as int);
                    }
                    return None;
                },
                Some(v) => {
                    value = v;
                },
            },
        }
        i = i + 1;
    }
    assert(s@.subrange(start as int, n as int) =~= d);
    proof {
        lemma_digits_value_nonneg(d);
    }
    Some(value)
}

proof fn lemma_none_when_large(s: Seq<char>, start: int, n: int)
    requires
        0 <= start < n == s.len(),
        unsigned_digits(s) == s.subrange(start, n),
        digits_value(s.subrange(start, n)) > usize::MAX || exists|j: int|
            start <= j < n && !is_digit(#[trigger] s[j]),
    ensures
        usize_value(s) is None,
{
    let d = s.subrange(start, n);
    if exists|j: int| start <= j < n && !is_digit(#[trigger] s[j]) {
        let j = choose|j: int| start <= j < n && !is_digit(#[trigger] s[j]);
        assert(d[j - start] == s[j]);
        assert(!(forall|k: int| 0 <= k < d.len() ==> is_digit(#[trigger] d[k])));
    }
}

/// When a prefix of the digits already overflows (with one more digit
/// still to come, or reached), the whole number does.
proof fn lemma_rest_too_large(s: Seq<char>, start: int, i: int, n: int)
    requires
        0 <= start <= i <= n == s.len(),
        start < n,
        i < n || digits_value(s.subrange(start, i)) > usize::MAX,
        forall|j: int| start <= j < i ==> is_digit(#[trigger] s[j]),
        i < n ==> digits_value(s.subrange(start, i)) * 10 > usize::MAX,
    ensures
        digits_value(s.subrange(start, n)) > usize::MAX || exists|j: int|
            start <= j < n && !is_digit(#[trigger] s[j]),
    decreases n - i,
{
    if exists|j: int| start <= j < n && !is_digit(#[trigger] s[j]) {
    } else {
        lemma_prefix_monotone(s, start, i, n);
    }
}

proof fn lemma_prefix_monotone(s: Seq<char>, start: int, i: int, n: int)
    requires
        0 <= start <= i <= n == s.len(),
        forall|j: int| start <= j < n ==> is_digit(#[trigger] s[j]),
        i < n ==> digits_value(s.subrange(start, i)) * 10 > usize::MAX,
        i == n ==> digits_value(s.subrange(start, i)) > usize::MAX,
    ensures
        digits_value(s.subrange(start, n)) > usize::MAX,
    decreases n - i,
{
    if i < n {
        let p = s.subrange(start, i);
        let q = s.subrange(start, i + 1);
        assert(q.drop_last() =~= p);
        assert(q.last() == s[i]);
        assert(is_digit(s[i]));
        assert(digits_value(q) > usize::MAX);
        if i + 1 < n {
            assert(digits_value(q) * 10 > usize::MAX) by (nonlinear_arith)
                requires
                    digits_value(q) > usize::MAX,
            ;
        }
        lemma_prefix_monotone(s, start, i + 1, n);
    }
}

/// Why a room-creation request was refused.
#[derive(Clone, Copy, Debug, PartialEq, Eq)]
pub enum CreateRoomError {
    Unauthorized,
    Rejected(CreateError),
}

/// The capacity asked for by the `max_peers` parameter, when it is a number.
pub open spec fn max_peers_param(params: Map<Seq<char>, Seq<char>>) -> Option<usize> {
    match param_of(params, "max_peers"@) {
        Some(s) => usize_value(s),
        None => None,
    }
}

/// Handles a room-creation request: checks the API key, then creates a room
/// in the request's scope with the capacity and password of its parameters.
pub fn create_room(
    registry: &mut Registry,
    api_key: &Option<String>,
    header_key: Option<&String>,
    params: &HashMap<String, String>,
    now_ms: u64,
) -> (r: Result<CreateRoomResponse, CreateRoomError>)
    requires
        old(registry).wf(),
    ensures
        final(registry).wf(),
        final(registry).peer_limit() == old(registry).peer_limit(),
        final(registry).room_limit() == old(registry).room_limit(),
        r is Err ==> final(registry).rooms() == old(registry).rooms(),
        r == Err::<CreateRoomResponse, CreateRoomError>(CreateRoomError::Unauthorized)
            <==> !validate_api_key_spec(api_key, header_key),
        r == Err::<CreateRoomResponse, CreateRoomError>(
            CreateRoomError::Rejected(CreateError::TooManyRooms),
        ) <==> validate_api_key_spec(api_key, header_key) && old(registry).rooms().len() >= old(
            registry,
        ).room_limit(),
        validate_api_key_spec(api_key, header_key) && old(registry).rooms().len() < old(
            registry,
        ).room_limit() && param_of(params.deep_view(), "password"@) is Some && password_check(
            param_of(params.deep_view(), "password"@)->0,
        ) is Err ==> r == Err::<CreateRoomResponse, CreateRoomError>(
            CreateRoomError::Rejected(password_check(param_of(params.deep_view(), "password"@)->0)->Err_0),
        ) || r == Err::<CreateRoomResponse, CreateRoomError>(
            CreateRoomError::Rejected(CreateError::SlugExhausted),
        ),
        validate_api_key_spec(api_key, header_key) && old(registry).rooms().len() < old(
            registry,
        ).room_limit() && (param_of(params.deep_view(), "password"@) is Some ==> password_check(
            param_of(params.deep_view(), "password"@)->0,
        ) is Ok) && scope_is_empty(old(registry).rooms(), app_id_of(params.deep_view())) ==> r is Ok,
        r == Err::<CreateRoomResponse, CreateRoomError>(
            CreateRoomError::Rejected(CreateError::SlugExhausted),
        ) ==> !scope_is_empty(old(registry).rooms(), app_id_of(params.deep_view())),
        r is Ok ==> {
            let app = app_id_of(params.deep_view());
            let slug = r->Ok_0.room@;
            let room = final(registry).rooms()[(app, slug)];
            &&& validate_api_key_spec(api_key, header_key)
            &&& crate::ident::is_slug(slug)
            &&& crate::room::opt_view(r->Ok_0.password) == param_of(params.deep_view(), "password"@)
            &&& !old(registry).rooms().contains_key((app, slug))
            &&& final(registry).rooms() == old(registry).rooms().insert((app, slug), room)
            &&& room.peers@.len() == 0
            &&& room.max_peers == crate::room::min_usize(
                match max_peers_param(params.deep_view()) {
                    Some(m) => m,
                    None => old(registry).peer_limit(),
                },
                crate::room::MAX_PEERS_PER_ROOM,
            )
            &&& room.password == r->Ok_0.password
            &&& room.created_at_ms == now_ms
        },
{
    proof {
        reveal_strlit("max_peers");
        reveal_strlit("password");
    }
    if !validate_api_key(api_key, header_key, None) {
        return Err(CreateRoomError::Unauthorized);
    }
    let app_id = get_app_id(params);
    let max_peers = match query_param(params, "max_peers") {
        Some(text) => parse_usize(text.as_str()),
        None => None,
    };
    let password = query_param(params, "password");
    match registry.create(&app_id, max_peers, password, now_ms) {
        Ok(resp) => Ok(resp),
        Err(e) => Err(CreateRoomError::Rejected(e)),
    }
}

/// Whether a request without an API key in its query passes the key check.
pub open spec fn validate_api_key_spec(state_key: &Option<String>, header_key: Option<&String>) -> bool {
    match state_key {
        None => true,
        Some(k) => header_key is Some && header_key->0@ == k@,
    }
}

/// Why a room check or a connection attempt was refused.
#[derive(Clone, Copy, Debug, PartialEq, Eq)]
pub enum RoomRequestError {
    /// The room id is malformed; the code says how.
    InvalidRoomId(&'static str),
    NotFound,
    /// The room refused the connection; the reason goes to the client in an
    /// `error` frame before the socket is closed.
    Rejected(AdmissionError),
}

/// Handles a room check: validates the id and reports the room's status in
/// the request's scope.
pub fn check_room(registry: &Registry, room: &String, params: &HashMap<String, String>) -> (r:
    Result<RoomStatus, RoomRequestError>)
    ensures
        room_id_error(room@) is Some ==> (r matches Err(RoomRequestError::InvalidRoomId(code))
            && room_id_error(room@) == Some(code@)),
        room_id_error(room@) is None ==> {
            let k: KeyView = (app_id_of(params.deep_view()), room@);
            &&& !registry.rooms().contains_key(k) ==> r == Err::<RoomStatus, RoomRequestError>(
                RoomRequestError::NotFound,
            )
            &&& registry.rooms().contains_key(k) ==> {
                let st = registry.rooms()[k];
                &&& r is Ok
                &&& r->Ok_0.peers == st.peers@.len()
                &&& r->Ok_0.capacity == st.max_peers
                &&& r->Ok_0.full == (st.peers@.len() >= st.max_peers)
                &&& r->Ok_0.password_required == (st.password is Some)
            }
        },
{
    match validate_room_id(room.as_str()) {
        Err(code) => return Err(RoomRequestError::InvalidRoomId(code)),
        Ok(()) => {},
    }
    let key = RoomKey { app_id: get_app_id(params), room_id: room.clone() };
    match registry.status(&key) {
        Some(st) => Ok(st),
        None => Err(RoomRequestError::NotFound),
    }
}

/// Handles a connection attempt before its handshake: validates the id,
/// looks the room up in the request's scope and runs the advisory admission
/// check with the `password` parameter. On success returns the room's key;
/// registration still decides.
pub fn admit_connection(
    registry: &Registry,
    room: &String,
    params: &HashMap<String, String>,
) -> (r: Result<RoomKey, RoomRequestError>)
    ensures
        room_id_error(room@) is Some ==> (r matches Err(RoomRequestError::InvalidRoomId(code))
            && room_id_error(room@) == Some(code@)),
        room_id_error(room@) is None ==> {
            let k: KeyView = (app_id_of(params.deep_view()), room@);
            &&& !registry.rooms().contains_key(k) ==> r == Err::<RoomKey, RoomRequestError>(
                RoomRequestError::NotFound,
            )
            &&& registry.rooms().contains_key(k) ==> {
                let st = registry.rooms()[k];
                let verdict = admission_spec(
                    crate::room::opt_view(st.password),
                    param_of(params.deep_view(), "password"@),
                    st.peers@.len(),
                    st.max_peers as nat,
                );
                &&& verdict is Ok ==> r is Ok && r->Ok_0@ == k
                &&& verdict is Err ==> r == Err::<RoomKey, RoomRequestError>(
                    RoomRequestError::Rejected(verdict->Err_0),
                )
            }
        },
{
    proof {
        reveal_strlit("password");
    }
    match validate_room_id(room.as_str()) {
        Err(code) => return Err(RoomRequestError::InvalidRoomId(code)),
        Ok(()) => {},
    }
    let key = RoomKey { app_id: get_app_id(params), room_id: room.clone() };
    let provided = query_param(params, "password");
    let verdict = match &provided {
        Some(p) => registry.check_admission(&key, Some(p)),
        None => registry.check_admission(&key, None),
    };
    match verdict {
        Ok(()) => Ok(key),
        Err(AdmissionError::NotFound) => Err(RoomRequestError::NotFound),
        Err(e) => Err(RoomRequestError::Rejected(e)),
    }
}

/// `infos` names each room exactly once, with its peer count, and names
/// nothing else.
pub open spec fn lists_rooms(rooms: crate::registry::RoomsView, infos: Seq<RoomInfo>) -> bool {
    &&& infos.len() == rooms.len()
    &&& forall|i: int, j: int|
        0 <= i < j < infos.len() ==> (infos[i].app_id@, infos[i].id@) != (
            infos[j].app_id@,
            infos[j].id@,
        )
    &&& forall|i: int| #![trigger infos[i]]
        0 <= i < infos.len() ==> {
            let k = (infos[i].app_id@, infos[i].id@);
            &&& rooms.contains_key(k)
            &&& infos[i].peers == rooms[k].peers@.len()
        }
    &&& forall|k: KeyView| #[trigger]
        rooms.contains_key(k) ==> exists|i: int|
            0 <= i < infos.len() && infos[i].app_id@ == k.0 && infos[i].id@ == k.1
}

/// Adds the peer count of the room under a key to a running total.
pub open spec fn add_peers(rooms: crate::registry::RoomsView) -> spec_fn(int, KeyView) -> int {
    |acc: int, k: KeyView| acc + rooms[k].peers@.len()
}

/// Number of peers over all rooms of the registry.
pub open spec fn peer_total(rooms: crate::registry::RoomsView) -> int {
    rooms.dom().fold(0int, add_peers(rooms))
}

/// The key named by a listing line.
pub open spec fn info_key(i: RoomInfo) -> KeyView {
    (i.app_id@, i.id@)
}

/// The total over an exact listing is the total over the rooms.
pub proof fn lemma_listing_total(rooms: crate::registry::RoomsView, infos: Seq<RoomInfo>)
    requires
        lists_rooms(rooms, infos),
    ensures
        sum_peers(infos) == peer_total(rooms),
{
    let f = add_peers(rooms);
    assert(is_fun_commutative(f)) by {
        assert forall|a1: KeyView, a2: KeyView, b: int| #[trigger] f(f(b, a2), a1) == f(f(b, a1), a2) by {
        }
    }
    lemma_prefix_total(rooms, infos, infos.len() as int);
    let ks = infos.map_values(|i: RoomInfo| info_key(i));
    assert(infos.subrange(0, infos.len() as int) =~= infos);
    assert forall|k: KeyView| ks.to_set().contains(k) <==> rooms.dom().contains(k) by {
        if rooms.contains_key(k) {
            let j = choose|j: int| 0 <= j < infos.len() && infos[j].app_id@ == k.0 && infos[j].id@ == k.1;
            assert(ks[j] == k);
        }
        if ks.contains(k) {
            let j = choose|j: int| 0 <= j < ks.len() && ks[j] == k;
            assert(rooms.contains_key(info_key(infos[j])));
        }
    }
    assert(ks.to_set() =~= rooms.dom());
    assert(infos.subrange(0, infos.len() as int).map_values(|i: RoomInfo| info_key(i)) =~= ks);
}

proof fn lemma_prefix_total(rooms: crate::registry::RoomsView, infos: Seq<RoomInfo>, n: int)
    requires
        lists_rooms(rooms, infos),
        is_fun_commutative(add_peers(rooms)),
        0 <= n <= infos.len(),
    ensures
        sum_peers(infos.subrange(0, n)) == infos.subrange(0, n).map_values(
            |i: RoomInfo| info_key(i),
        ).to_set().fold(0int, add_peers(rooms)),
    decreases n,
{
    let f = add_peers(rooms);
    let pre = infos.subrange(0, n);
    let ks = pre.map_values(|i: RoomInfo| info_key(i));
    if n == 0 {
        assert(ks.to_set() =~= Set::<KeyView>::empty());
        lemma_fold_empty(0int, f);
    } else {
        lemma_prefix_total(rooms, infos, n - 1);
        let prev = infos.subrange(0, n - 1);
        let pks = prev.map_values(|i: RoomInfo| info_key(i));
        let k = info_key(infos[n - 1]);
        assert(pre.drop_last() =~= prev);
        assert(pre.last() == infos[n - 1]);
        assert forall|x: KeyView| ks.to_set().contains(x) <==> pks.to_set().insert(k).contains(x) by {
            if ks.contains(x) {
                let j = choose|j: int| 0 <= j < ks.len() && ks[j] == x;
                if j < n - 1 {
                    assert(pks[j] == x);
                }
            }
            if pks.contains(x) {
                let j = choose|j: int| 0 <= j < pks.len() && pks[j] == x;
                assert(ks[j] == x);
            }
            if x == k {
                assert(ks[n - 1] == k);
            }
        }
        assert(ks.to_set() =~= pks.to_set().insert(k));
        assert(!pks.to_set().contains(k)) by {
            if pks.contains(k) {
                let j = choose|j: int| 0 <= j < pks.len() && pks[j] == k;
                assert(info_key(infos[j]) == info_key(infos[n - 1]));
            }
        }
        lemma_fold_insert(pks.to_set(), 0int, f, k);
        assert(rooms.contains_key(info_key(infos[n - 1])));
    }
}

/// Total of the peer counts of a listing.
pub open spec fn sum_peers(infos: Seq<RoomInfo>) -> int
    decreases infos.len(),
{
    if infos.len() == 0 {
        0
    } else {
        sum_peers(infos.drop_last()) + infos.last().peers
    }
}

/// The number of connected peers over a listing, saturating at the largest
/// `usize`.
pub fn connection_count(infos: &Vec<RoomInfo>) -> (r: usize)
    ensures
        r == if sum_peers(infos@) > usize::MAX {
            usize::MAX
        } else {
            sum_peers(infos@) as usize
        },
{
    let mut total: usize = 0;
    let mut i: usize = 0;
    while i < infos.len()
        invariant
            i <= infos@.len(),
            total == if sum_peers(infos@.subrange(0, i as int)) > usize::MAX {
                usize::MAX
            } else {
                sum_peers(infos@.subrange(0, i as int)) as usize
            },
            sum_peers(infos@.subrange(0, i as int)) >= 0,
        decreases infos@.len() - i,
    {
        let ghost prev = infos@.subrange(0, i as int);
        let ghost next = infos@.subrange(0, i + 1);
        assert(next.drop_last() =~= prev);
        total = total.saturating_add(infos[i].peers);
        i = i + 1;
    }
    assert(infos@.subrange(0, i as int) =~= infos@);
    total
}

/// The administrative room listing, for a caller holding the admin token.
pub fn admin_rooms(registry: &Registry, token: &String, admin_token: &String) -> (r: Option<
    AdminRoomsResponse,
>)
    ensures
        r is Some <==> token@ == admin_token@,
        r is Some ==> {
            let resp = r->0;
            &&& resp.total_rooms == resp.rooms@.len()
            &&& resp.rooms@.len() == registry.rooms().len()
            &&& forall|i: int, j: int|
                0 <= i < j < resp.rooms@.len() ==> (resp.rooms@[i].app_id@, resp.rooms@[i].id@) != (
                    resp.rooms@[j].app_id@,
                    resp.rooms@[j].id@,
                )
            &&& resp.max_rooms == registry.room_limit()
            &&& forall|i: int| #![trigger resp.rooms@[i]]
                0 <= i < resp.rooms@.len() ==> {
                    let k = (resp.rooms@[i].app_id@, resp.rooms@[i].id@);
                    &&& registry.rooms().contains_key(k)
                    &&& resp.rooms@[i].peers == registry.rooms()[k].peers@.len()
                    &&& resp.rooms@[i].capacity == registry.peer_limit()
                }
            &&& forall|k: KeyView| #[trigger]
                registry.rooms().contains_key(k) ==> exists|i: int|
                    0 <= i < resp.rooms@.len() && resp.rooms@[i].app_id@ == k.0
                        && resp.rooms@[i].id@ == k.1
        },
{
    if *token != *admin_token {
        return None;
    }
    let rooms = registry.room_infos();
    let total_rooms = rooms.len();
    Some(AdminRoomsResponse { rooms, total_rooms, max_rooms: registry.max_global_rooms() })
}

/// The aggregate counters, for a caller holding the admin token. The daily
/// counters and the uptime are kept by the caller.
pub fn admin_metrics(
    registry: &Registry,
    token: &String,
    admin_token: &String,
    rooms_created_today: u64,
    connections_today: u64,
    uptime_seconds: u64,
) -> (r: Option<MetricsResponse>)
    ensures
        r is Some <==> token@ == admin_token@,
        r is Some ==> {
            &&& r->0.active_rooms == registry.rooms().len()
            &&& r->0.rooms_created_today == rooms_created_today
            &&& r->0.connections_today == connections_today
            &&& r->0.uptime_seconds == uptime_seconds
            &&& r->0.active_connections == if peer_total(registry.rooms()) > usize::MAX {
                usize::MAX
            } else {
                peer_total(registry.rooms()) as usize
            }
        },
{
    if *token != *admin_token {
        return None;
    }
    let infos = registry.room_infos();
    let active_connections = connection_count(&infos);
    proof {
        lemma_listing_total(registry.rooms(), infos@);
    }
    Some(
        MetricsResponse {
            active_rooms: registry.len(),
            active_connections,
            rooms_created_today,
            connections_today,
            uptime_seconds,
        },
    )
}

} // verus!
