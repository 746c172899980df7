//! The broadcast hub: the single serialized coordinator that owns the
//! mapping of live connections to rooms and mediates all broadcast traffic.
//!
//! The hub's observable behaviour is specified against a ghost model
//! ([`HubView`]) and ghost transitions ([`spec_connect`], [`spec_disconnect`],
//! [`spec_message_targets`]); the executable [`RoomServer`] is proved to
//! implement those transitions exactly, and the model-consistency,
//! idempotence and fan-out laws are proved of the transitions themselves.

use vstd::prelude::*;

verus! {

// ---------------------------------------------------------------------------
// Ghost model
// ---------------------------------------------------------------------------

/// Ghost model of one room: its name and the identifiers of its member
/// connections, in subscription order.
#[verifier::ext_equal]
pub struct RoomView {
    pub name: Seq<char>,
    pub members: Seq<nat>,
}

/// Ghost model of the whole hub: the next fresh connection identifier, the
/// identifiers of the live connections, and the rooms.
#[verifier::ext_equal]
pub struct HubView {
    pub next_id: nat,
    pub sessions: Seq<nat>,
    pub rooms: Seq<RoomView>,
}

/// Index of the first room called `name`, if any.
pub open spec fn room_index(rooms: Seq<RoomView>, name: Seq<char>) -> Option<int>
    decreases rooms.len(),
{
    if rooms.len() == 0 {
        None
    } else if rooms.first().name == name {
        Some(0int)
    } else {
        match room_index(rooms.drop_first(), name) {
            Some(i) => Some(i + 1),
            None => None,
        }
    }
}

/// Index of the first room with `id` among its members, if any.
pub open spec fn room_of(rooms: Seq<RoomView>, id: nat) -> Option<int>
    decreases rooms.len(),
{
    if rooms.len() == 0 {
        None
    } else if rooms.first().members.contains(id) {
        Some(0int)
    } else {
        match room_of(rooms.drop_first(), id) {
            Some(i) => Some(i + 1),
            None => None,
        }
    }
}

/// The members of room `name`; empty if the hub knows no such room.
pub open spec fn members_of(rooms: Seq<RoomView>, name: Seq<char>) -> Seq<nat> {
    match room_index(rooms, name) {
        Some(i) => rooms[i].members,
        None => Seq::empty(),
    }
}

/// Well-formedness of the hub state: connection identifiers are unique and
/// below the allocation counter, room names are unique, each member set has
/// no duplicates, every member is a live connection, and no connection
/// belongs to two rooms.
pub open spec fn hub_wf(m: HubView) -> bool {
    &&& m.sessions.no_duplicates()
    &&& (forall|i: int| 0 <= i < m.sessions.len() ==> m.sessions[i] < m.next_id)
    &&& (forall|i: int, j: int|
        0 <= i < j < m.rooms.len() ==> (#[trigger] m.rooms[i]).name != (#[trigger] m.rooms[j]).name)
    &&& (forall|i: int| 0 <= i < m.rooms.len() ==> (#[trigger] m.rooms[i]).members.no_duplicates())
    &&& (forall|i: int, k: int|
        0 <= i < m.rooms.len() && 0 <= k < m.rooms[i].members.len()
            ==> m.sessions.contains(#[trigger] m.rooms[i].members[k]))
    &&& (forall|i: int, j: int, id: nat|
        0 <= i < j < m.rooms.len() && #[trigger] m.rooms[i].members.contains(id)
            ==> !(#[trigger] m.rooms[j].members.contains(id)))
}

/// What `Connect` does to the model: the join notice goes to the room's
/// previous members, a fresh identifier is allocated and recorded, and the
/// new connection joins the room (which is created if absent).
pub struct ConnectEffect {
    pub state: HubView,
    pub id: nat,
    pub notified: Seq<nat>,
}

/// The model transition for `Connect`.
pub open spec fn spec_connect(m: HubView, name: Seq<char>) -> ConnectEffect {
    let id = m.next_id;
    let rooms2 = match room_index(m.rooms, name) {
        Some(i) => m.rooms.update(
            i,
            (RoomView { name: m.rooms[i].name, members: m.rooms[i].members.push(id) }),
        ),
        None => m.rooms.push((RoomView { name: name, members: seq![id] })),
    };
    ConnectEffect {
        state: HubView { next_id: m.next_id + 1, sessions: m.sessions.push(id), rooms: rooms2 },
        id: id,
        notified: members_of(m.rooms, name),
    }
}

/// A room with the first occurrence of `id` removed from its members.
pub open spec fn strip_member(r: RoomView, id: nat) -> RoomView {
    RoomView { name: r.name, members: r.members.remove_value(id) }
}

/// What `Disconnect` does to the model: an unknown identifier is a no-op;
/// a known one is dropped from the session list and from whichever room
/// held it, and the leave notice goes to that room's remaining members.
pub struct DisconnectEffect {
    pub state: HubView,
    pub notified: Seq<nat>,
}

/// The model transition for `Disconnect`.
pub open spec fn spec_disconnect(m: HubView, id: nat) -> DisconnectEffect {
    if !m.sessions.contains(id) {
        DisconnectEffect { state: m, notified: Seq::empty() }
    } else {
        let rooms2 = m.rooms.map_values(|r: RoomView| strip_member(r, id));
        let notified = match room_of(m.rooms, id) {
            Some(i) => rooms2[i].members,
            None => Seq::empty(),
        };
        DisconnectEffect {
            state: HubView {
                next_id: m.next_id,
                sessions: m.sessions.remove_value(id),
                rooms: rooms2,
            },
            notified: notified,
        }
    }
}

/// Which connections a `Message` for room `name` is fanned out to: all the
/// room's members, the state itself being left unchanged.
pub open spec fn spec_message_targets(m: HubView, name: Seq<char>) -> Seq<nat> {
    members_of(m.rooms, name)
}

// ---------------------------------------------------------------------------
// Characterizations of the search functions
// ---------------------------------------------------------------------------

pub proof fn lemma_room_index(rooms: Seq<RoomView>, name: Seq<char>)
    ensures
        match room_index(rooms, name) {
            Some(i) => 0 <= i < rooms.len() && rooms[i].name == name && (forall|j: int|
                0 <= j < i ==> (#[trigger] rooms[j]).name != name),
            None => forall|j: int| 0 <= j < rooms.len() ==> (#[trigger] rooms[j]).name != name,
        },
    decreases rooms.len(),
{
    if rooms.len() != 0 && rooms.first().name != name {
        lemma_room_index(rooms.drop_first(), name);
        assert(forall|j: int|
            1 <= j < rooms.len() ==> (#[trigger] rooms[j]) == rooms.drop_first()[j - 1]);
    }
}

/// If `i` is the first index whose room is called `name`, the search finds it.
pub proof fn lemma_room_index_finds(rooms: Seq<RoomView>, name: Seq<char>, i: int)
    requires
        0 <= i < rooms.len(),
        rooms[i].name == name,
        forall|j: int| 0 <= j < i ==> (#[trigger] rooms[j]).name != name,
    ensures
        room_index(rooms, name) == Some(i),
{
    lemma_room_index(rooms, name);
    match room_index(rooms, name) {
        Some(i0) => {
            if i0 < i {
                assert(rooms[i0].name != name);
            } else if i < i0 {
                assert(rooms[i].name != name);
            }
        },
        None => {
            assert(rooms[i].name != name);
        },
    }
}

pub proof fn lemma_room_of(rooms: Seq<RoomView>, id: nat)
    ensures
        match room_of(rooms, id) {
            Some(i) => 0 <= i < rooms.len() && rooms[i].members.contains(id) && (forall|j: int|
                0 <= j < i ==> !(#[trigger] rooms[j]).members.contains(id)),
            None => forall|j: int|
                0 <= j < rooms.len() ==> !(#[trigger] rooms[j]).members.contains(id),
        },
    decreases rooms.len(),
{
    if rooms.len() != 0 && !rooms.first().members.contains(id) {
        lemma_room_of(rooms.drop_first(), id);
        assert(forall|j: int|
            1 <= j < rooms.len() ==> (#[trigger] rooms[j]) == rooms.drop_first()[j - 1]);
    }
}

/// If `i` is the first index whose room holds `id`, the search finds it.
pub proof fn lemma_room_of_finds(rooms: Seq<RoomView>, id: nat, i: int)
    requires
        0 <= i < rooms.len(),
        rooms[i].members.contains(id),
        forall|j: int| 0 <= j < i ==> !(#[trigger] rooms[j]).members.contains(id),
    ensures
        room_of(rooms, id) == Some(i),
{
    lemma_room_of(rooms, id);
    match room_of(rooms, id) {
        Some(i0) => {
            if i0 < i {
                assert(!rooms[i0].members.contains(id));
            } else if i < i0 {
                assert(!rooms[i].members.contains(id));
            }
        },
        None => {
            assert(!rooms[i].members.contains(id));
        },
    }
}

// ---------------------------------------------------------------------------
// Helper lemmas about removal
// ---------------------------------------------------------------------------

/// Removing one position keeps every other value present.
pub proof fn lemma_remove_keeps_others(s: Seq<nat>, i: int, x: nat)
    requires
        0 <= i < s.len(),
        s.contains(x),
        x != s[i],
    ensures
        s.remove(i).contains(x),
{
    let k = choose|k: int| 0 <= k < s.len() && s[k] == x;
    s.remove_ensures(i);
    if k < i {
        assert(s.remove(i)[k] == x);
    } else {
        assert(s.remove(i)[k - 1] == x);
    }
}

/// On a duplicate-free sequence, removing a value removes exactly its one
/// occurrence: the result is still duplicate-free, no longer holds the
/// value, and holds everything else.
pub proof fn lemma_remove_value_no_dup(s: Seq<nat>, x: nat)
    requires
        s.no_duplicates(),
    ensures
        s.remove_value(x).no_duplicates(),
        !s.remove_value(x).contains(x),
        forall|y: nat| #[trigger] s.remove_value(x).contains(y) ==> s.contains(y),
        forall|y: nat| s.contains(y) && y != x ==> #[trigger] s.remove_value(x).contains(y),
{
    s.index_of_first_ensures(x);
    match s.index_of_first(x) {
        Some(i) => {
            let r = s.remove(i);
            s.remove_ensures(i);
            assert forall|a: int, b: int|
                0 <= a < r.len() && 0 <= b < r.len() && a != b implies r[a] != r[b] by {
                let a0: int = if a < i { a } else { a + 1 };
                let b0: int = if b < i { b } else { b + 1 };
                assert(r[a] == s[a0]);
                assert(r[b] == s[b0]);
            }
            assert forall|y: nat| r.contains(y) implies s.contains(y) by {
                let k = choose|k: int| 0 <= k < r.len() && r[k] == y;
                let k0: int = if k < i { k } else { k + 1 };
                assert(s[k0] == y);
            }
            assert(!r.contains(x)) by {
                if r.contains(x) {
                    let k = choose|k: int| 0 <= k < r.len() && r[k] == x;
                    let k0: int = if k < i { k } else { k + 1 };
                    assert(s[k0] == x && k0 != i && s[i] == x);
                }
            }
            assert forall|y: nat| s.contains(y) && y != x implies r.contains(y) by {
                lemma_remove_keeps_others(s, i, y);
            }
        },
        None => {},
    }
}

/// Removing the first occurrence of a value is removal at its first index.
pub proof fn lemma_remove_first_occurrence(s: Seq<nat>, j: int, x: nat)
    requires
        0 <= j < s.len(),
        s[j] == x,
        forall|k: int| 0 <= k < j ==> s[k] != x,
    ensures
        s.remove_value(x) == s.remove(j),
{
    s.index_of_first_ensures(x);
    match s.index_of_first(x) {
        Some(i) => {
            if i < j {
                assert(s[i] != x);
            } else if j < i {
                assert(s[j] != x);
            }
        },
        None => {
            assert(s[j] == x);
        },
    }
}

// ---------------------------------------------------------------------------
// Preservation of well-formedness
// ---------------------------------------------------------------------------

pub proof fn lemma_connect_preserves_wf(m: HubView, name: Seq<char>)
    requires
        hub_wf(m),
    ensures
        hub_wf(spec_connect(m, name).state),
{
    let id = m.next_id;
    let m2 = spec_connect(m, name).state;
    assert(!m.sessions.contains(id)) by {
        if m.sessions.contains(id) {
            let k = choose|k: int| 0 <= k < m.sessions.len() && m.sessions[k] == id;
            assert(m.sessions[k] < m.next_id);
        }
    }
    // no member of any room is the fresh identifier
    assert forall|i: int, x: nat|
        0 <= i < m.rooms.len() && #[trigger] m.rooms[i].members.contains(x) implies m.sessions.contains(x)
            && x != id by {
        let k = choose|k: int| 0 <= k < m.rooms[i].members.len() && m.rooms[i].members[k] == x;
        assert(m.sessions.contains(m.rooms[i].members[k]));
    }
    lemma_room_index(m.rooms, name);
    match room_index(m.rooms, name) {
        Some(ri) => {
            assert forall|i: int, j: int, x: nat|
                0 <= i < j < m2.rooms.len() && #[trigger] m2.rooms[i].members.contains(x) implies !(
            #[trigger] m2.rooms[j].members.contains(x)) by {
                if m2.rooms[i].members.contains(x) && m2.rooms[j].members.contains(x) {
                    if i == ri {
                        if x == id {
                            assert(m.rooms[j].members.contains(x));
                        } else {
                            assert(m.rooms[ri].members.push(id).contains(x));
                            let k = choose|k: int|
                                0 <= k < m.rooms[ri].members.push(id).len()
                                    && m.rooms[ri].members.push(id)[k] == x;
                            assert(m.rooms[ri].members[k] == x);
                            assert(m.rooms[i].members.contains(x));
                        }
                    } else if j == ri {
                        if x == id {
                            assert(m.rooms[i].members.contains(x));
                        } else {
                            let k = choose|k: int|
                                0 <= k < m.rooms[ri].members.push(id).len()
                                    && m.rooms[ri].members.push(id)[k] == x;
                            assert(m.rooms[ri].members[k] == x);
                            assert(m.rooms[j].members.contains(x));
                        }
                    } else {
                        assert(m.rooms[i].members.contains(x));
                        assert(m.rooms[j].members.contains(x));
                    }
                }
            }
            assert forall|i: int, k: int|
                0 <= i < m2.rooms.len() && 0 <= k < m2.rooms[i].members.len() implies m2.sessions.contains(
                #[trigger] m2.rooms[i].members[k]) by {
                let x = m2.rooms[i].members[k];
                if i == ri && k == m.rooms[ri].members.len() {
                    assert(m2.sessions[m.sessions.len() as int] == id);
                } else {
                    assert(m.rooms[i].members[k] == x);
                    assert(m.sessions.contains(x));
                    let k2 = choose|k2: int| 0 <= k2 < m.sessions.len() && m.sessions[k2] == x;
                    assert(m2.sessions[k2] == x);
                }
            }
            assert forall|i: int|
                0 <= i < m2.rooms.len() implies (#[trigger] m2.rooms[i]).members.no_duplicates() by {
                if i == ri {
                    let mm = m.rooms[ri].members;
                    assert(!mm.contains(id));
                    assert forall|a: int, b: int|
                        0 <= a < mm.push(id).len() && 0 <= b < mm.push(id).len() && a != b implies mm.push(
                        id)[a] != mm.push(id)[b] by {
                        if a < mm.len() && b < mm.len() {
                            assert(mm[a] != mm[b]);
                        } else if a < mm.len() {
                            assert(mm.contains(mm[a]) && mm.push(id)[b] == id);
                        } else {
                            assert(mm.contains(mm[b]) && mm.push(id)[a] == id);
                        }
                    }
                }
            }
        },
        None => {
            assert forall|i: int, j: int, x: nat|
                0 <= i < j < m2.rooms.len() && #[trigger] m2.rooms[i].members.contains(x) implies !(
            #[trigger] m2.rooms[j].members.contains(x)) by {
                if m2.rooms[i].members.contains(x) && m2.rooms[j].members.contains(x) {
                    if j == m.rooms.len() {
                        let k = choose|k: int|
                            0 <= k < m2.rooms[j].members.len() && m2.rooms[j].members[k] == x;
                        assert(m2.rooms[j].members[k] == id);
                        assert(m.rooms[i].members.contains(id));
                    } else {
                        assert(m.rooms[i].members.contains(x));
                        assert(m.rooms[j].members.contains(x));
                    }
                }
            }
            assert forall|i: int, k: int|
                0 <= i < m2.rooms.len() && 0 <= k < m2.rooms[i].members.len() implies m2.sessions.contains(
                #[trigger] m2.rooms[i].members[k]) by {
                let x = m2.rooms[i].members[k];
                if i == m.rooms.len() {
                    assert(x == id);
                    assert(m2.sessions[m.sessions.len() as int] == id);
                } else {
                    assert(m.rooms[i].members[k] == x);
                    assert(m.sessions.contains(x));
                    let k2 = choose|k2: int| 0 <= k2 < m.sessions.len() && m.sessions[k2] == x;
                    assert(m2.sessions[k2] == x);
                }
            }
        },
    }
    assert(m2.sessions.no_duplicates()) by {
        let s2 = m.sessions.push(id);
        assert forall|a: int, b: int|
            0 <= a < s2.len() && 0 <= b < s2.len() && a != b implies s2[a] != s2[b] by {
            if a < m.sessions.len() && b < m.sessions.len() {
                assert(m.sessions[a] != m.sessions[b]);
            } else if a < m.sessions.len() {
                assert(m.sessions.contains(m.sessions[a]) && s2[b] == id);
            } else {
                assert(m.sessions.contains(m.sessions[b]) && s2[a] == id);
            }
        }
    }
}

pub proof fn lemma_disconnect_preserves_wf(m: HubView, id: nat)
    requires
        hub_wf(m),
    ensures
        hub_wf(spec_disconnect(m, id).state),
{
    if m.sessions.contains(id) {
        let m2 = spec_disconnect(m, id).state;
        lemma_remove_value_no_dup(m.sessions, id);
        assert forall|i: int|
            0 <= i < m2.rooms.len() implies (#[trigger] m2.rooms[i]).members.no_duplicates() by {
            lemma_remove_value_no_dup(m.rooms[i].members, id);
        }
        assert forall|i: int, k: int|
            0 <= i < m2.rooms.len() && 0 <= k < m2.rooms[i].members.len() implies m2.sessions.contains(
            #[trigger] m2.rooms[i].members[k]) by {
            let x = m2.rooms[i].members[k];
            lemma_remove_value_no_dup(m.rooms[i].members, id);
            assert(m2.rooms[i].members == m.rooms[i].members.remove_value(id));
            assert(m2.rooms[i].members.contains(x));
            assert(m.rooms[i].members.contains(x));
            assert(x != id);
            let k2 = choose|k2: int|
                0 <= k2 < m.rooms[i].members.len() && m.rooms[i].members[k2] == x;
            assert(m.sessions.contains(m.rooms[i].members[k2]));
        }
        assert forall|i: int, j: int, x: nat|
            0 <= i < j < m2.rooms.len() && #[trigger] m2.rooms[i].members.contains(x) implies !(
        #[trigger] m2.rooms[j].members.contains(x)) by {
            if m2.rooms[i].members.contains(x) && m2.rooms[j].members.contains(x) {
                lemma_remove_value_no_dup(m.rooms[i].members, id);
                lemma_remove_value_no_dup(m.rooms[j].members, id);
                assert(m.rooms[i].members.contains(x));
                assert(m.rooms[j].members.contains(x));
            }
        }
        assert forall|i: int|
            0 <= i < m2.sessions.len() implies m2.sessions[i] < m2.next_id by {
            assert(m2.sessions.contains(m2.sessions[i]));
            assert(m.sessions.contains(m2.sessions[i]));
            let k = choose|k: int| 0 <= k < m.sessions.len() && m.sessions[k] == m2.sessions[i];
            assert(m.sessions[k] < m.next_id);
        }
    }
}

// ---------------------------------------------------------------------------
// Commands as ghost values, and the laws
// ---------------------------------------------------------------------------

/// Ghost form of one hub command.
pub enum CmdView {
    Connect { room: Seq<char> },
    Disconnect { conn: nat },
    Message { room: Seq<char>, msg: Seq<char> },
}

/// The state after processing one command.
pub open spec fn spec_step(m: HubView, c: CmdView) -> HubView {
    match c {
        CmdView::Connect { room } => spec_connect(m, room).state,
        CmdView::Disconnect { conn } => spec_disconnect(m, conn).state,
        CmdView::Message { room: _, msg: _ } => m,
    }
}

/// The state after processing a whole command sequence in submission order.
pub open spec fn spec_run(m: HubView, cs: Seq<CmdView>) -> HubView
    decreases cs.len(),
{
    if cs.len() == 0 {
        m
    } else {
        spec_run(spec_step(m, cs.first()), cs.drop_first())
    }
}

/// The hub's state when it starts: no connections, no rooms.
pub open spec fn init_hub() -> HubView {
    HubView { next_id: 0, sessions: Seq::empty(), rooms: Seq::empty() }
}

pub proof fn lemma_step_preserves_wf(m: HubView, c: CmdView)
    requires
        hub_wf(m),
    ensures
        hub_wf(spec_step(m, c)),
{
    match c {
        CmdView::Connect { room } => lemma_connect_preserves_wf(m, room),
        CmdView::Disconnect { conn } => lemma_disconnect_preserves_wf(m, conn),
        CmdView::Message { .. } => {},
    }
}

/// Processing any command sequence in submission order keeps the connection
/// and room maps mutually consistent: every room member is a live
/// connection, and no connection belongs to two rooms.
pub proof fn lemma_run_preserves_wf(m: HubView, cs: Seq<CmdView>)
    requires
        hub_wf(m),
    ensures
        hub_wf(spec_run(m, cs)),
    decreases cs.len(),
{
    if cs.len() != 0 {
        lemma_step_preserves_wf(m, cs.first());
        lemma_run_preserves_wf(spec_step(m, cs.first()), cs.drop_first());
    }
}

/// From its empty starting state the hub stays consistent under every
/// command sequence.
pub proof fn lemma_run_from_init_wf(cs: Seq<CmdView>)
    ensures
        hub_wf(spec_run(init_hub(), cs)),
{
    lemma_run_preserves_wf(init_hub(), cs);
}

/// Disconnecting the same connection twice is safe: the second disconnect
/// leaves the state untouched and notifies nobody.
pub proof fn lemma_disconnect_idempotent(m: HubView, id: nat)
    requires
        hub_wf(m),
    ensures
        spec_disconnect(spec_disconnect(m, id).state, id).state == spec_disconnect(m, id).state,
        spec_disconnect(spec_disconnect(m, id).state, id).notified == Seq::<nat>::empty(),
{
    let once = spec_disconnect(m, id).state;
    if m.sessions.contains(id) {
        lemma_remove_value_no_dup(m.sessions, id);
        assert(!once.sessions.contains(id));
    }
}

/// The join notice reaches exactly the room's previous members, never the
/// joiner itself.
pub proof fn lemma_join_notice_excludes_joiner(m: HubView, name: Seq<char>)
    requires
        hub_wf(m),
    ensures
        spec_connect(m, name).notified == members_of(m.rooms, name),
        !spec_connect(m, name).notified.contains(spec_connect(m, name).id),
{
    let id = m.next_id;
    lemma_room_index(m.rooms, name);
    match room_index(m.rooms, name) {
        Some(i) => {
            if m.rooms[i].members.contains(id) {
                let k = choose|k: int|
                    0 <= k < m.rooms[i].members.len() && m.rooms[i].members[k] == id;
                assert(m.sessions.contains(m.rooms[i].members[k]));
                let k2 = choose|k2: int| 0 <= k2 < m.sessions.len() && m.sessions[k2] == id;
                assert(m.sessions[k2] < m.next_id);
            }
        },
        None => {},
    }
}

/// The leave notice reaches exactly the remaining members of the room the
/// connection belonged to — never the departing connection itself — and
/// nobody when the connection was in no room.
pub proof fn lemma_leave_notice(m: HubView, id: nat)
    requires
        hub_wf(m),
    ensures
        !spec_disconnect(m, id).notified.contains(id),
        (!m.sessions.contains(id) || room_of(m.rooms, id) is None) ==> spec_disconnect(
            m,
            id,
        ).notified == Seq::<nat>::empty(),
{
    if m.sessions.contains(id) {
        match room_of(m.rooms, id) {
            Some(i) => {
                lemma_room_of(m.rooms, id);
                lemma_remove_value_no_dup(m.rooms[i].members, id);
            },
            None => {},
        }
    }
}

/// Removing an absent value changes nothing.
pub proof fn lemma_remove_value_absent(s: Seq<nat>, x: nat)
    requires
        !s.contains(x),
    ensures
        s.remove_value(x) == s,
{
    s.index_of_first_ensures(x);
    match s.index_of_first(x) {
        Some(i) => {
            assert(s.contains(x));
        },
        None => {},
    }
}

// ---------------------------------------------------------------------------
// Executable hub
// ---------------------------------------------------------------------------

/// The queue end through which the hub pushes broadcasts towards one
/// connection's session loop; an opaque handle from tokio.
#[verifier::external_type_specification]
#[verifier::external_body]
#[verifier::reject_recursive_types(T)]
pub struct ExUnboundedSender<T>(tokio::sync::mpsc::UnboundedSender<T>);

/// Relies on tokio's `UnboundedSender::send`: a non-blocking enqueue that
/// succeeds while the receiving half is open and fails once it is dropped.
/// Nothing is promised of the outcome: the hub treats a failed push as the
/// benign race with a connection that is tearing down.
#[verifier::external_body]
fn send_text(tx: &tokio::sync::mpsc::UnboundedSender<String>, msg: String) -> bool {
    tx.send(msg).is_ok()
}

/// One live connection: its identifier and the write end of its queue.
struct Connection {
    id: u64,
    tx: tokio::sync::mpsc::UnboundedSender<String>,
}

/// One room: its externally supplied name and its member identifiers.
struct RoomEntry {
    name: String,
    members: Vec<u64>,
}

impl View for RoomEntry {
    type V = RoomView;

    closed spec fn view(&self) -> RoomView {
        RoomView { name: self.name@, members: self.members@.map_values(|m: u64| m as nat) }
    }
}

/// One enqueue attempt produced by processing a command: which connection
/// the payload was pushed towards, and the payload itself.
pub struct Delivery {
    pub conn: u64,
    pub payload: String,
}

/// The deliveries hit exactly `targets`, in order, all carrying `payload`.
pub open spec fn deliveries_match(ds: Seq<Delivery>, targets: Seq<nat>, payload: Seq<char>) -> bool {
    &&& ds.len() == targets.len()
    &&& forall|k: int|
        0 <= k < ds.len() ==> (#[trigger] ds[k]).conn as nat == targets[k] && ds[k].payload@
            == payload
}

/// The system notice broadcast to a room's previous members when someone joins.
pub open spec fn join_notice() -> Seq<char> {
    "Someone joined"@
}

/// The system notice broadcast to a room's remaining members when someone leaves.
pub open spec fn leave_notice() -> Seq<char> {
    "session {session_id} has disconnected."@
}

/// One command submitted to the hub.
pub enum Command {
    Connect { conn_tx: tokio::sync::mpsc::UnboundedSender<String>, room_id: String },
    Disconnect { conn: u64 },
    Message { room_id: String, msg: String },
}

impl View for Command {
    type V = CmdView;

    open spec fn view(&self) -> CmdView {
        match self {
            Command::Connect { conn_tx: _, room_id } => CmdView::Connect { room: room_id@ },
            Command::Disconnect { conn } => CmdView::Disconnect { conn: *conn as nat },
            Command::Message { room_id, msg } => (CmdView::Message { room: room_id@, msg: msg@ }),
        }
    }
}

/// The hub's reply to a command that expects one.
pub enum Reply {
    ConnId(u64),
    Sent,
}

/// The broadcast hub: single owner of the session and room maps; commands
/// are processed strictly one at a time through `&mut self`.
pub struct RoomServer {
    next_conn_id: u64,
    sessions: Vec<Connection>,
    rooms: Vec<RoomEntry>,
}

impl View for RoomServer {
    type V = HubView;

    closed spec fn view(&self) -> HubView {
        HubView {
            next_id: self.next_conn_id as nat,
            sessions: self.sessions@.map_values(|c: Connection| c.id as nat),
            rooms: self.rooms@.map_values(|r: RoomEntry| r@),
        }
    }
}

impl RoomServer {
    /// The hub state is well formed.
    pub open spec fn wf(&self) -> bool {
        hub_wf(self@)
    }

    /// A fresh hub: no connections, no rooms.
    pub fn new() -> (s: RoomServer)
        ensures
            s@ == init_hub(),
            s.wf(),
    {
        let s = RoomServer { next_conn_id: 0, sessions: Vec::new(), rooms: Vec::new() };
        proof {
            assert(s@.sessions =~= Seq::<nat>::empty());
            assert(s@.rooms =~= Seq::<RoomView>::empty());
            assert(s@ =~= init_hub());
        }
        s
    }

    /// The identifier counter still has room for another connection; only
    /// then may a `Connect` command be processed.
    pub fn can_allocate(&self) -> (b: bool)
        ensures
            b == (self@.next_id < u64::MAX as nat),
    {
        self.next_conn_id < u64::MAX
    }

    /// Index of the room called `name`, if the hub knows one.
    fn find_room(&self, name: &String) -> (r: Option<usize>)
        ensures
            match r {
                Some(i) => i < self.rooms@.len() && room_index(self@.rooms, name@) == Some(
                    i as int,
                ),
                None => room_index(self@.rooms, name@) is None,
            },
    {
        let n = self.rooms.len();
        let mut i: usize = 0;
        while i < n
            invariant
                n == self.rooms@.len(),
                i <= n,
                forall|j: int| 0 <= j < i ==> (#[trigger] self@.rooms[j]).name != name@,
            decreases n - i,
        {
            if self.rooms[i].name == *name {
                proof {
                    lemma_room_index_finds(self@.rooms, name@, i as int);
                }
                return Some(i);
            }
            i = i + 1;
        }
        proof {
            lemma_room_index(self@.rooms, name@);
            if room_index(self@.rooms, name@) is Some {
                let i0 = room_index(self@.rooms, name@).unwrap();
                assert(self@.rooms[i0].name != name@);
            }
        }
        None
    }

    /// Index of the live connection with identifier `conn`, if any.
    fn find_session(&self, conn: u64) -> (r: Option<usize>)
        ensures
            match r {
                Some(j) => j < self.sessions@.len() && self.sessions@[j as int].id == conn
                    && (forall|k: int| 0 <= k < j ==> (#[trigger] self.sessions@[k]).id != conn),
                None => !self@.sessions.contains(conn as nat),
            },
    {
        let n = self.sessions.len();
        let mut j: usize = 0;
        while j < n
            invariant
                n == self.sessions@.len(),
                j <= n,
                forall|k: int| 0 <= k < j ==> (#[trigger] self.sessions@[k]).id != conn,
            decreases n - j,
        {
            if self.sessions[j].id == conn {
                return Some(j);
            }
            j = j + 1;
        }
        proof {
            if self@.sessions.contains(conn as nat) {
                let k = choose|k: int|
                    0 <= k < self@.sessions.len() && self@.sessions[k] == conn as nat;
                assert(self.sessions@[k].id == conn);
            }
        }
        None
    }

    /// Index of the first occurrence of `x` in `v`, if any.
    fn find_u64(v: &Vec<u64>, x: u64) -> (r: Option<usize>)
        ensures
            match r {
                Some(j) => j < v@.len() && v@[j as int] == x && (forall|k: int|
                    0 <= k < j ==> v@[k] != x),
                None => forall|k: int| 0 <= k < v@.len() ==> v@[k] != x,
            },
    {
        let n = v.len();
        let mut j: usize = 0;
        while j < n
            invariant
                n == v@.len(),
                j <= n,
                forall|k: int| 0 <= k < j ==> v@[k] != x,
            decreases n - j,
        {
            if v[j] == x {
                return Some(j);
            }
            j = j + 1;
        }
        None
    }

    /// Push `msg` towards every member of room `room`: one enqueue attempt
    /// per member, a member whose queue has already closed being silently
    /// skipped. Broadcasting to an unknown room reaches nobody.
    fn send_system_message(&self, room: &String, msg: &String) -> (deliveries: Vec<Delivery>)
        ensures
            deliveries_match(deliveries@, members_of(self@.rooms, room@), msg@),
    {
        let mut deliveries: Vec<Delivery> = Vec::new();
        match self.find_room(room) {
            None => deliveries,
            Some(i) => {
                let n = self.rooms[i].members.len();
                let mut k: usize = 0;
                while k < n
                    invariant
                        i < self.rooms@.len(),
                        n == self.rooms@[i as int].members@.len(),
                        room_index(self@.rooms, room@) == Some(i as int),
                        k <= n,
                        deliveries@.len() == k,
                        forall|t: int|
                            0 <= t < k ==> (#[trigger] deliveries@[t]).conn as nat == members_of(
                                self@.rooms,
                                room@,
                            )[t] && deliveries@[t].payload@ == msg@,
                    decreases n - k,
                {
                    let conn_id = self.rooms[i].members[k];
                    match self.find_session(conn_id) {
                        Some(j) => {
                            let _accepted = send_text(&self.sessions[j].tx, msg.clone());
                        },
                        None => {
                            // the member's session is already mid-teardown;
                            // the attempt is dropped silently
                        },
                    }
                    deliveries.push(Delivery { conn: conn_id, payload: msg.clone() });
                    k = k + 1;
                }
                deliveries
            },
        }
    }

    /// Broadcast `msg` to every member of room `room_id`. The state is
    /// unchanged; the result records one enqueue attempt per member, in
    /// member order, each carrying exactly `msg`.
    pub fn send_message(&self, room_id: &String, msg: &String) -> (deliveries: Vec<Delivery>)
        ensures
            deliveries_match(deliveries@, spec_message_targets(self@, room_id@), msg@),
    {
        self.send_system_message(room_id, msg)
    }

    /// Register a new connection in room `room_id`: the join notice goes to
    /// the room's previous members, a fresh identifier is allocated and
    /// returned, and the connection becomes a member of the room.
    pub fn connect(
        &mut self,
        conn_tx: tokio::sync::mpsc::UnboundedSender<String>,
        room_id: String,
    ) -> (r: (u64, Vec<Delivery>))
        requires
            old(self).wf(),
            old(self)@.next_id < u64::MAX as nat,
        ensures
            final(self).wf(),
            final(self)@ == spec_connect(old(self)@, room_id@).state,
            r.0 as nat == spec_connect(old(self)@, room_id@).id,
            deliveries_match(r.1@, spec_connect(old(self)@, room_id@).notified, join_notice()),
    {
        let ghost rname = room_id@;
        let notice = "Someone joined".to_owned();
        let deliveries = self.send_system_message(&room_id, &notice);
        let id = self.next_conn_id;
        self.next_conn_id = id + 1;
        self.sessions.push(Connection { id: id, tx: conn_tx });
        proof {
            assert(self@.sessions =~= old(self)@.sessions.push(id as nat));
            assert(self@.rooms =~= old(self)@.rooms);
            lemma_connect_preserves_wf(old(self)@, rname);
        }
        match self.find_room(&room_id) {
            Some(i) => {
                let ghost pre = self@;
                let ghost rvec = self.rooms@;
                let mut entry = self.rooms.remove(i);
                entry.members.push(id);
                let ghost e2 = entry;
                self.rooms.insert(i, entry);
                proof {
                    let target = RoomView {
                        name: pre.rooms[i as int].name,
                        members: pre.rooms[i as int].members.push(id as nat),
                    };
                    rvec.remove_ensures(i as int);
                    rvec.remove(i as int).insert_ensures(i as int, e2);
                    assert(e2@ =~= target);
                    assert(self@.rooms =~= pre.rooms.update(i as int, target));
                    assert(self@ =~~= spec_connect(old(self)@, rname).state);
                }
                (id, deliveries)
            },
            None => {
                let mut members: Vec<u64> = Vec::new();
                members.push(id);
                let ghost pre = self@;
                self.rooms.push(RoomEntry { name: room_id, members: members });
                proof {
                    let target = RoomView { name: rname, members: seq![id as nat] };
                    assert(self@.rooms.last() =~= target);
                    assert(self@.rooms =~= pre.rooms.push(target));
                    assert(self@ =~~= spec_connect(old(self)@, rname).state);
                }
                (id, deliveries)
            },
        }
    }

    /// Drop connection `conn`: a no-op for an unknown identifier; otherwise
    /// the connection leaves the session map and whichever room held it, and
    /// the leave notice goes to that room's remaining members.
    pub fn disconnect(&mut self, conn: u64) -> (deliveries: Vec<Delivery>)
        requires
            old(self).wf(),
        ensures
            final(self).wf(),
            final(self)@ == spec_disconnect(old(self)@, conn as nat).state,
            deliveries_match(
                deliveries@,
                spec_disconnect(old(self)@, conn as nat).notified,
                leave_notice(),
            ),
    {
        let ghost om = old(self)@;
        match self.find_session(conn) {
            None => {
                Vec::new()
            },
            Some(j) => {
                proof {
                    assert(om.sessions[j as int] == conn as nat);
                    assert(om.sessions.contains(conn as nat));
                }
                self.sessions.remove(j);
                proof {
                    assert(self@.sessions =~= om.sessions.remove(j as int));
                    assert forall|k: int| 0 <= k < j implies om.sessions[k] != conn as nat by {
                        assert(old(self).sessions@[k].id != conn);
                    }
                    lemma_remove_first_occurrence(om.sessions, j as int, conn as nat);
                }
                let ghost orooms = om.rooms;
                let ghost presess = self@.sessions;
                let mut found: Option<usize> = None;
                let mut i: usize = 0;
                let n = self.rooms.len();
                while i < n
                    invariant
                        hub_wf(om),
                        orooms == om.rooms,
                        n == self.rooms@.len(),
                        orooms.len() == n,
                        i <= n,
                        self@.sessions == presess,
                        self@.next_id == om.next_id,
                        forall|t: int|
                            0 <= t < i ==> self@.rooms[t] == strip_member(
                                #[trigger] orooms[t],
                                conn as nat,
                            ),
                        forall|t: int| i <= t < n ==> self@.rooms[t] == #[trigger] orooms[t],
                        match found {
                            Some(fi) => fi < i && orooms[fi as int].members.contains(conn as nat)
                                && (forall|t: int|
                                0 <= t < i && t != fi ==> !(#[trigger] orooms[t]).members.contains(
                                    conn as nat,
                                )),
                            None => forall|t: int|
                                0 <= t < i ==> !(#[trigger] orooms[t]).members.contains(
                                    conn as nat,
                                ),
                        },
                    decreases n - i,
                {
                    match Self::find_u64(&self.rooms[i].members, conn) {
                        Some(jj) => {
                            proof {
                                if found is Some {
                                    let fi = found.unwrap() as int;
                                    assert(orooms[fi].members.contains(conn as nat));
                                    assert(orooms[i as int].members[jj as int] == conn as nat);
                                    assert(orooms[i as int].members.contains(conn as nat));
                                }
                            }
                            let ghost rvec = self.rooms@;
                            let mut entry = self.rooms.remove(i);
                            let ghost mvec = entry.members@;
                            entry.members.remove(jj);
                            let ghost e2 = entry;
                            self.rooms.insert(i, entry);
                            found = Some(i);
                            proof {
                                let mm = orooms[i as int].members;
                                assert(mm =~= mvec.map_values(|m: u64| m as nat));
                                assert forall|k: int| 0 <= k < jj implies mm[k] != conn as nat by {
                                    assert(mvec[k] != conn);
                                }
                                assert(mm[jj as int] == conn as nat);
                                lemma_remove_first_occurrence(mm, jj as int, conn as nat);
                                rvec.remove_ensures(i as int);
                                rvec.remove(i as int).insert_ensures(i as int, e2);
                                mvec.remove_ensures(jj as int);
                                mm.remove_ensures(jj as int);
                                assert(e2@.members =~= mm.remove(jj as int));
                                assert(e2@ =~= strip_member(orooms[i as int], conn as nat));
                                assert forall|t: int|
                                    0 <= t < n && t != i implies self@.rooms[t] == rvec.map_values(
                                    |r: RoomEntry| r@,
                                )[t] by {}
                            }
                        },
                        None => {
                            proof {
                                let mm = orooms[i as int].members;
                                let mvec = self.rooms@[i as int].members@;
                                assert(mm =~= mvec.map_values(|m: u64| m as nat));
                                assert forall|k: int|
                                    0 <= k < mm.len() implies mm[k] != conn as nat by {
                                    assert(mvec[k] != conn);
                                }
                                assert(!mm.contains(conn as nat));
                                lemma_remove_value_absent(mm, conn as nat);
                                assert(strip_member(orooms[i as int], conn as nat)
                                    =~= orooms[i as int]);
                            }
                        },
                    }
                    i = i + 1;
                }
                proof {
                    assert(self@.rooms =~= orooms.map_values(
                        |r: RoomView| strip_member(r, conn as nat),
                    ));
                    lemma_disconnect_preserves_wf(om, conn as nat);
                }
                match found {
                    Some(fi) => {
                        proof {
                            lemma_room_of_finds(orooms, conn as nat, fi as int);
                        }
                        let room_name = self.rooms[fi].name.clone();
                        let notice = "session {session_id} has disconnected.".to_owned();
                        proof {
                            assert(room_name@ == orooms[fi as int].name);
                            assert forall|t: int|
                                0 <= t < fi implies (#[trigger] self@.rooms[t]).name
                                != room_name@ by {
                                assert(orooms[t].name != orooms[fi as int].name);
                            }
                            lemma_room_index_finds(self@.rooms, room_name@, fi as int);
                        }
                        let ds = self.send_system_message(&room_name, &notice);
                        proof {
                            assert(self@ =~~= spec_disconnect(om, conn as nat).state);
                            assert(members_of(self@.rooms, room_name@) == spec_disconnect(
                                om,
                                conn as nat,
                            ).notified);
                        }
                        ds
                    },
                    None => {
                        proof {
                            lemma_room_of(orooms, conn as nat);
                            assert(self@ =~~= spec_disconnect(om, conn as nat).state);
                        }
                        Vec::new()
                    },
                }
            },
        }
    }

    /// Process one command against the state, in arrival order: the single
    /// step of the hub's serialized command loop. Returns the reply owed to
    /// the submitter (the fresh identifier for `Connect`, an acknowledgement
    /// for `Message`, nothing for `Disconnect`) and the enqueue attempts the
    /// command caused.
    pub fn handle_command(&mut self, cmd: Command) -> (r: (Option<Reply>, Vec<Delivery>))
        requires
            old(self).wf(),
            (cmd@ matches CmdView::Connect { .. }) ==> old(self)@.next_id < u64::MAX as nat,
        ensures
            final(self).wf(),
            final(self)@ == spec_step(old(self)@, cmd@),
            match cmd@ {
                CmdView::Connect { room } => ({
                    &&& r.0 matches Some(Reply::ConnId(id)) && id as nat == spec_connect(
                        old(self)@,
                        room,
                    ).id
                    &&& deliveries_match(
                        r.1@,
                        spec_connect(old(self)@, room).notified,
                        join_notice(),
                    )
                }),
                CmdView::Disconnect { conn } => ({
                    &&& r.0 is None
                    &&& deliveries_match(
                        r.1@,
                        spec_disconnect(old(self)@, conn).notified,
                        leave_notice(),
                    )
                }),
                CmdView::Message { room, msg } => ({
                    &&& r.0 matches Some(Reply::Sent)
                    &&& deliveries_match(r.1@, spec_message_targets(old(self)@, room), msg)
                }),
            },
    {
        match cmd {
            Command::Connect { conn_tx, room_id } => {
                let (id, ds) = self.connect(conn_tx, room_id);
                (Some(Reply::ConnId(id)), ds)
            },
            Command::Disconnect { conn } => {
                let ds = self.disconnect(conn);
                (None, ds)
            },
            Command::Message { room_id, msg } => {
                let ds = self.send_message(&room_id, &msg);
                (Some(Reply::Sent), ds)
            },
        }
    }
}

} // verus!
