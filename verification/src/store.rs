//! The rooms and their players, with the operations that the API performs
//! on them.
//!
//! A store is modelled as the sequence of its rooms in the order they were
//! opened; each room holds its players in the order they joined. Room codes
//! are unique in a store, and usernames are unique in a room.

use vstd::prelude::*;
use crate::models::{PlayerScore, RoomRow, Score};
use crate::room_id::{ascii_upper, code_of_uuid, format_room_id, is_hyphenated_v4, new_room_id, room_id_text};
use crate::units::UnitSize;

verus! {

/// How long, in seconds, a room may go without activity before it is
/// removed: 48 hours.
pub const INACTIVITY_LIMIT_SECS: u64 = 48 * 60 * 60;

/// A player as the model sees it: a name and the centilitres drunk.
pub struct PlayerModel {
    pub name: Seq<char>,
    pub drunk_cl: u64,
}

/// A room as the model sees it.
pub struct RoomModel {
    pub id: u16,
    pub unit: UnitSize,
    pub goal_bits: u64,
    /// The time, in seconds, of the room's last change.
    pub updated_at: u64,
    pub players: Seq<PlayerModel>,
}

/// No two players of `ps` share a name.
pub open spec fn names_unique(ps: Seq<PlayerModel>) -> bool {
    forall|i: int, j: int|
        0 <= i < ps.len() && 0 <= j < ps.len() && i != j ==> #[trigger] ps[i].name != #[trigger] ps[j].name
}

/// The store's invariant: no two rooms share a code, and each room's
/// usernames are unique.
pub open spec fn rooms_wf(s: Seq<RoomModel>) -> bool {
    &&& forall|i: int, j: int|
        0 <= i < s.len() && 0 <= j < s.len() && i != j ==> #[trigger] s[i].id != #[trigger] s[j].id
    &&& forall|i: int| 0 <= i < s.len() ==> names_unique(#[trigger] s[i].players)
}

/// Some room of `s` has code `id`.
pub open spec fn has_room(s: Seq<RoomModel>, id: u16) -> bool {
    exists|i: int| 0 <= i < s.len() && #[trigger] s[i].id == id
}

/// The position of the room with code `id` in `s`.
pub open spec fn room_index(s: Seq<RoomModel>, id: u16) -> int {
    choose|i: int| 0 <= i < s.len() && #[trigger] s[i].id == id
}

/// The room with code `id`.
pub open spec fn room_of(s: Seq<RoomModel>, id: u16) -> RoomModel {
    s[room_index(s, id)]
}

/// Some player of `ps` is called `name`.
pub open spec fn has_player(ps: Seq<PlayerModel>, name: Seq<char>) -> bool {
    exists|j: int| 0 <= j < ps.len() && #[trigger] ps[j].name == name
}

/// The position of the player called `name` in `ps`.
pub open spec fn player_index(ps: Seq<PlayerModel>, name: Seq<char>) -> int {
    choose|j: int| 0 <= j < ps.len() && #[trigger] ps[j].name == name
}

/// The room `id` exists and has a player called `name`.
pub open spec fn player_exists(s: Seq<RoomModel>, id: u16, name: Seq<char>) -> bool {
    has_room(s, id) && has_player(room_of(s, id).players, name)
}

/// A room just opened: no players yet.
pub open spec fn new_room(id: u16, unit: UnitSize, goal_bits: u64, now: u64) -> RoomModel {
    RoomModel { id, unit, goal_bits, updated_at: now, players: Seq::empty() }
}

/// `r` after a player called `name` joined it at time `now`, with nothing drunk.
pub open spec fn joined(r: RoomModel, name: Seq<char>, now: u64) -> RoomModel {
    RoomModel {
        updated_at: now,
        players: r.players.push(PlayerModel { name, drunk_cl: 0 }),
        ..r
    }
}

/// `r` after its `j`-th player's total was set to `drunk` at time `now`.
pub open spec fn with_drunk(r: RoomModel, j: int, drunk: u64, now: u64) -> RoomModel {
    RoomModel {
        updated_at: now,
        players: r.players.update(j, PlayerModel { name: r.players[j].name, drunk_cl: drunk }),
        ..r
    }
}

/// A total after a drink of `cl` centilitres is added; it stays at the
/// largest `u64` rather than wrap.
pub open spec fn drink_added(drunk: u64, cl: u64) -> u64 {
    if drunk + cl > u64::MAX {
        u64::MAX
    } else {
        (drunk + cl) as u64
    }
}

/// A total after a drink of `cl` centilitres is taken back; it never goes
/// below zero.
pub open spec fn drink_removed(drunk: u64, cl: u64) -> u64 {
    if drunk >= cl {
        (drunk - cl) as u64
    } else {
        0
    }
}

/// A room with no activity for longer than the limit, seen at time `now`.
pub open spec fn is_stale(r: RoomModel, now: u64) -> bool {
    r.updated_at + INACTIVITY_LIMIT_SECS < now
}

/// The test that keeps a room at time `now`: it is not stale.
pub open spec fn is_kept(now: u64) -> spec_fn(RoomModel) -> bool {
    |r: RoomModel| !is_stale(r, now)
}

/// The rooms of `s` that are not stale at time `now`, in their order.
pub open spec fn active_rooms(s: Seq<RoomModel>, now: u64) -> Seq<RoomModel> {
    s.filter(is_kept(now))
}

/// The model of a listed player: name and centilitres drunk.
pub open spec fn score_model(p: PlayerScore) -> PlayerModel {
    PlayerModel { name: p.username@, drunk_cl: p.score.drunk_cl }
}

/// `v` lists players from the highest total to the lowest.
pub open spec fn sorted_by_score(v: Seq<PlayerScore>) -> bool {
    forall|a: int, b: int| 0 <= a < b < v.len() ==> #[trigger] v[a].score.drunk_cl >= #[trigger] v[b].score.drunk_cl
}

/// In a store whose codes are unique, the room found at a position with
/// code `id` is the room with that code.
pub proof fn lemma_room_index(s: Seq<RoomModel>, id: u16, i: int)
    requires
        rooms_wf(s),
        0 <= i < s.len(),
        s[i].id == id,
    ensures
        has_room(s, id),
        room_index(s, id) == i,
{
    assert(has_room(s, id));
    let k = room_index(s, id);
    assert(s[k].id == id);
}

/// With unique names, the player found at a position with name `name` is
/// the player with that name.
pub proof fn lemma_player_index(ps: Seq<PlayerModel>, name: Seq<char>, j: int)
    requires
        names_unique(ps),
        0 <= j < ps.len(),
        ps[j].name == name,
    ensures
        has_player(ps, name),
        player_index(ps, name) == j,
{
    assert(has_player(ps, name));
    let k = player_index(ps, name);
    assert(ps[k].name == name);
}

struct Player {
    name: String,
    drunk_cl: u64,
}

impl Player {
    spec fn model(&self) -> PlayerModel {
        PlayerModel { name: self.name@, drunk_cl: self.drunk_cl }
    }
}

spec fn player_models(v: Seq<Player>) -> Seq<PlayerModel> {
    v.map_values(|p: Player| p.model())
}

struct Room {
    id: u16,
    unit: UnitSize,
    goal_bits: u64,
    updated_at: u64,
    players: Vec<Player>,
}

impl Room {
    spec fn model(&self) -> RoomModel {
        RoomModel {
            id: self.id,
            unit: self.unit,
            goal_bits: self.goal_bits,
            updated_at: self.updated_at,
            players: player_models(self.players@),
        }
    }
}

/// All rooms, in the order they were opened.
pub struct RoomStore {
    rooms: Vec<Room>,
    /// The UUID texts that new room codes were drawn from, in order.
    drawn: Ghost<Seq<Seq<char>>>,
}

impl View for RoomStore {
    type V = Seq<RoomModel>;

    closed spec fn view(&self) -> Seq<RoomModel> {
        self.rooms@.map_values(|r: Room| r.model())
    }
}

impl RoomStore {
    /// The store's invariant holds.
    pub open spec fn wf(&self) -> bool {
        rooms_wf(self@)
    }

    /// The UUID texts that new room codes were drawn from for this store, in
    /// the order they were drawn.
    pub closed spec fn drawn_uuids(&self) -> Seq<Seq<char>> {
        self.drawn@
    }

    /// The UUID text of the latest draw.
    pub open spec fn last_draw(&self) -> Seq<char> {
        self.drawn_uuids().last()
    }

    /// Draws a fresh random room code for a room of this store: the first
    /// four digits of a new random version-4 UUID, upper-cased. The UUID is
    /// recorded as the latest draw; the rooms do not change.
    pub fn draw_room_id(&mut self) -> (code: u16)
        requires
            old(self).wf(),
        ensures
            final(self).wf(),
            final(self)@ == old(self)@,
            final(self).drawn_uuids() == old(self).drawn_uuids().push(final(self).last_draw()),
            is_hyphenated_v4(final(self).last_draw()),
            code == code_of_uuid(final(self).last_draw()),
            room_id_text(code) == final(self).last_draw().take(4).map_values(|c: char| ascii_upper(c)),
    {
        let (code, text) = new_room_id();
        self.drawn = Ghost(self.drawn@.push(text@));
        code
    }

    /// An empty store.
    pub fn new() -> (store: RoomStore)
        ensures
            store.wf(),
            store@ == Seq::<RoomModel>::empty(),
    {
        let store = RoomStore { rooms: Vec::new(), drawn: Ghost(Seq::empty()) };
        assert(store@ =~= Seq::<RoomModel>::empty());
        store
    }

    /// The number of rooms.
    pub fn len(&self) -> (n: usize)
        ensures
            n == self@.len(),
    {
        self.rooms.len()
    }

    /// The position of the room with code `id`, if there is one.
    fn find_room(&self, id: u16) -> (r: Option<usize>)
        requires
            self.wf(),
        ensures
            match r {
                Some(i) => i < self@.len() && has_room(self@, id) && i == room_index(self@, id),
                None => !has_room(self@, id),
            },
    {
        let mut i: usize = 0;
        while i < self.rooms.len()
            invariant
                0 <= i <= self.rooms.len(),
                self.wf(),
                forall|k: int| 0 <= k < i ==> #[trigger] self@[k].id != id,
            decreases self.rooms.len() - i,
        {
            if self.rooms[i].id == id {
                proof {
                    assert(self@[i as int].id == id);
                    lemma_room_index(self@, id, i as int);
                }
                return Some(i);
            }
            assert(self@[i as int].id != id);
            i += 1;
        }
        None
    }

    /// Whether a room has code `id`.
    pub fn contains_room(&self, id: u16) -> (r: bool)
        requires
            self.wf(),
        ensures
            r == has_room(self@, id),
    {
        self.find_room(id).is_some()
    }

    /// Opens a room with code `id`, unless a room has that code already.
    pub fn insert_room(&mut self, id: u16, unit: UnitSize, goal_bits: u64, now: u64) -> (inserted: bool)
        requires
            old(self).wf(),
        ensures
            final(self).wf(),
            inserted == !has_room(old(self)@, id),
            inserted ==> final(self)@ == old(self)@.push(new_room(id, unit, goal_bits, now)),
            !inserted ==> final(self)@ == old(self)@,
            final(self).drawn_uuids() == old(self).drawn_uuids(),
    {
        if self.find_room(id).is_some() {
            return false;
        }
        let room = Room { id, unit, goal_bits, updated_at: now, players: Vec::new() };
        self.rooms.push(room);
        proof {
            assert(player_models(Seq::<Player>::empty()) =~= Seq::<PlayerModel>::empty());
            assert(self@ =~= old(self)@.push(new_room(id, unit, goal_bits, now)));
            let s = self@;
            assert forall|i: int, j: int|
                0 <= i < s.len() && 0 <= j < s.len() && i != j implies #[trigger] s[i].id != #[trigger] s[j].id by {
                if i == s.len() - 1 {
                    assert(old(self)@[j].id == s[j].id);
                } else if j == s.len() - 1 {
                    assert(old(self)@[i].id == s[i].id);
                }
            }
        }
        true
    }

    /// The position, in room `i`, of the player called `name`, if any.
    fn find_player(&self, i: usize, name: &String) -> (r: Option<usize>)
        requires
            self.wf(),
            i < self@.len(),
        ensures
            match r {
                Some(j) => j < self@[i as int].players.len() && has_player(self@[i as int].players, name@)
                    && j == player_index(self@[i as int].players, name@),
                None => !has_player(self@[i as int].players, name@),
            },
    {
        let players = &self.rooms[i].players;
        let ghost ps = self@[i as int].players;
        assert(ps == player_models(players@));
        let mut j: usize = 0;
        while j < players.len()
            invariant
                0 <= j <= players.len(),
                i < self@.len(),
                ps == self@[i as int].players,
                ps == player_models(players@),
                names_unique(ps),
                forall|k: int| 0 <= k < j ==> #[trigger] ps[k].name != name@,
            decreases players.len() - j,
        {
            if players[j].name == *name {
                proof {
                    assert(ps[j as int].name == name@);
                    lemma_player_index(ps, name@, j as int);
                }
                return Some(j);
            }
            assert(ps[j as int].name != name@);
            j += 1;
        }
        None
    }

    /// The score of the player called `name` in room `id`, if both exist.
    pub fn player_score(&self, id: u16, name: &String) -> (r: Option<Score>)
        requires
            self.wf(),
        ensures
            r is Some <==> player_exists(self@, id, name@),
            r matches Some(score) ==> {
                let room = room_of(self@, id);
                &&& score.unit == room.unit
                &&& score.drunk_cl == room.players[player_index(room.players, name@)].drunk_cl
            },
    {
        match self.find_room(id) {
            None => None,
            Some(i) => match self.find_player(i, name) {
                None => None,
                Some(j) => {
                    let room = &self.rooms[i];
                    assert(room.players@[j as int].model() == self@[i as int].players[j as int]);
                    Some(Score { drunk_cl: room.players[j].drunk_cl, unit: room.unit })
                },
            },
        }
    }

    /// Adds a player called `name`, with nothing drunk, to room `id` at time
    /// `now`, unless the room is missing or already has a player of that name.
    pub fn insert_player(&mut self, id: u16, name: String, now: u64) -> (inserted: bool)
        requires
            old(self).wf(),
        ensures
            final(self).wf(),
            inserted == (has_room(old(self)@, id) && !has_player(room_of(old(self)@, id).players, name@)),
            inserted ==> final(self)@ == old(self)@.update(
                room_index(old(self)@, id),
                joined(room_of(old(self)@, id), name@, now),
            ),
            !inserted ==> final(self)@ == old(self)@,
    {
        let i = match self.find_room(id) {
            None => return false,
            Some(i) => i,
        };
        if self.find_player(i, &name).is_some() {
            return false;
        }
        let ghost name_view = name@;
        let ghost old_room = old(self)@[i as int];
        let mut room = self.rooms.remove(i);
        assert(room.model() == old_room);
        room.players.push(Player { name, drunk_cl: 0 });
        room.updated_at = now;
        proof {
            assert(player_models(room.players@) =~= old_room.players.push(
                PlayerModel { name: name_view, drunk_cl: 0 },
            ));
            assert(room.model() == joined(old_room, name_view, now));
        }
        self.rooms.insert(i, room);
        proof {
            assert(self@ =~= old(self)@.update(i as int, joined(old_room, name_view, now)));
            let ps = self@[i as int].players;
            assert forall|a: int, b: int|
                0 <= a < ps.len() && 0 <= b < ps.len() && a != b implies #[trigger] ps[a].name != #[trigger] ps[b].name by {
                if a == ps.len() - 1 {
                    assert(old_room.players[b].name == ps[b].name);
                } else if b == ps.len() - 1 {
                    assert(old_room.players[a].name == ps[a].name);
                } else {
                    assert(names_unique(old_room.players));
                }
            }
            let s = self@;
            assert forall|k: int| 0 <= k < s.len() implies names_unique(#[trigger] s[k].players) by {
                if k != i {
                    assert(s[k] == old(self)@[k]);
                }
            }
            assert forall|a: int, b: int|
                0 <= a < s.len() && 0 <= b < s.len() && a != b implies #[trigger] s[a].id != #[trigger] s[b].id by {
                assert(s[a].id == old(self)@[a].id);
                assert(s[b].id == old(self)@[b].id);
            }
        }
        true
    }

    /// Sets the total of player `j` of room `i` to `drunk` at time `now`.
    fn set_drunk(&mut self, i: usize, j: usize, drunk: u64, now: u64)
        requires
            old(self).wf(),
            i < old(self)@.len(),
            j < old(self)@[i as int].players.len(),
        ensures
            final(self).wf(),
            final(self)@ == old(self)@.update(i as int, with_drunk(old(self)@[i as int], j as int, drunk, now)),
    {
        let ghost old_room = old(self)@[i as int];
        let mut room = self.rooms.remove(i);
        assert(room.model() == old_room);
        let mut player = room.players.remove(j);
        assert(player.model() == old_room.players[j as int]);
        player.drunk_cl = drunk;
        room.players.insert(j, player);
        room.updated_at = now;
        proof {
            assert(player_models(room.players@) =~= old_room.players.update(
                j as int,
                PlayerModel { name: old_room.players[j as int].name, drunk_cl: drunk },
            ));
            assert(room.model() == with_drunk(old_room, j as int, drunk, now));
        }
        self.rooms.insert(i, room);
        proof {
            assert(self@ =~= old(self)@.update(i as int, with_drunk(old_room, j as int, drunk, now)));
            let ps = self@[i as int].players;
            assert forall|a: int, b: int|
                0 <= a < ps.len() && 0 <= b < ps.len() && a != b implies #[trigger] ps[a].name != #[trigger] ps[b].name by {
                assert(ps[a].name == old_room.players[a].name);
                assert(ps[b].name == old_room.players[b].name);
                assert(names_unique(old_room.players));
            }
            let s = self@;
            assert forall|k: int| 0 <= k < s.len() implies names_unique(#[trigger] s[k].players) by {
                if k != i {
                    assert(s[k] == old(self)@[k]);
                }
            }
            assert forall|a: int, b: int|
                0 <= a < s.len() && 0 <= b < s.len() && a != b implies #[trigger] s[a].id != #[trigger] s[b].id by {
                assert(s[a].id == old(self)@[a].id);
                assert(s[b].id == old(self)@[b].id);
            }
        }
    }

    /// Adds a drink of `cl` centilitres to the player called `name` in room
    /// `id` at time `now`, and returns the player's new total; `None`, with
    /// nothing changed, when the room or the player is missing.
    pub fn add_drink_to(&mut self, id: u16, name: &String, cl: u64, now: u64) -> (r: Option<u64>)
        requires
            old(self).wf(),
        ensures
            final(self).wf(),
            r is Some <==> player_exists(old(self)@, id, name@),
            r is None ==> final(self)@ == old(self)@,
            r matches Some(total) ==> {
                let i = room_index(old(self)@, id);
                let room = old(self)@[i];
                let j = player_index(room.players, name@);
                &&& total == drink_added(room.players[j].drunk_cl, cl)
                &&& final(self)@ == old(self)@.update(i, with_drunk(room, j, total, now))
            },
    {
        let i = match self.find_room(id) {
            None => return None,
            Some(i) => i,
        };
        let j = match self.find_player(i, name) {
            None => return None,
            Some(j) => j,
        };
        assert(self.rooms@[i as int].players@[j as int].model() == self@[i as int].players[j as int]);
        let drunk = self.rooms[i].players[j].drunk_cl;
        let total = drunk.saturating_add(cl);
        self.set_drunk(i, j, total, now);
        Some(total)
    }

    /// Takes back a drink of `cl` centilitres from the player called `name`
    /// in room `id` at time `now`, never below zero, and returns the
    /// player's new total; `None`, with nothing changed, when the room or
    /// the player is missing.
    pub fn remove_drink_from(&mut self, id: u16, name: &String, cl: u64, now: u64) -> (r: Option<u64>)
        requires
            old(self).wf(),
        ensures
            final(self).wf(),
            r is Some <==> player_exists(old(self)@, id, name@),
            r is None ==> final(self)@ == old(self)@,
            r matches Some(total) ==> {
                let i = room_index(old(self)@, id);
                let room = old(self)@[i];
                let j = player_index(room.players, name@);
                &&& total == drink_removed(room.players[j].drunk_cl, cl)
                &&& final(self)@ == old(self)@.update(i, with_drunk(room, j, total, now))
            },
    {
        let i = match self.find_room(id) {
            None => return None,
            Some(i) => i,
        };
        let j = match self.find_player(i, name) {
            None => return None,
            Some(j) => j,
        };
        assert(self.rooms@[i as int].players@[j as int].model() == self@[i as int].players[j as int]);
        let drunk = self.rooms[i].players[j].drunk_cl;
        let total = if drunk >= cl { drunk - cl } else { 0 };
        self.set_drunk(i, j, total, now);
        Some(total)
    }

    /// The players of room `id`, all of them, from the highest total to the
    /// lowest; empty when there is no such room.
    pub fn players_by_score(&self, id: u16) -> (v: Vec<PlayerScore>)
        requires
            self.wf(),
        ensures
            !has_room(self@, id) ==> v@.len() == 0,
            has_room(self@, id) ==> {
                let room = room_of(self@, id);
                &&& v@.map_values(|p: PlayerScore| score_model(p)).to_multiset() == room.players.to_multiset()
                &&& sorted_by_score(v@)
                &&& forall|a: int| 0 <= a < v@.len() ==> (#[trigger] v@[a]).score.unit == room.unit
            },
    {
        let i = match self.find_room(id) {
            None => return Vec::new(),
            Some(i) => i,
        };
        let room = &self.rooms[i];
        let ghost ps = self@[i as int].players;
        let mut out: Vec<PlayerScore> = Vec::new();
        let mut k: usize = 0;
        proof {
            assert(ps.take(0) =~= Seq::<PlayerModel>::empty());
            assert(out@.map_values(|p: PlayerScore| score_model(p)) =~= Seq::<PlayerModel>::empty());
        }
        while k < room.players.len()
            invariant
                0 <= k <= room.players.len(),
                ps == player_models(room.players@),
                sorted_by_score(out@),
                forall|a: int| 0 <= a < out@.len() ==> (#[trigger] out@[a]).score.unit == room.unit,
                out@.map_values(|p: PlayerScore| score_model(p)).to_multiset() == ps.take(k as int).to_multiset(),
            decreases room.players.len() - k,
        {
            let player = &room.players[k];
            let drunk = player.drunk_cl;
            let entry = PlayerScore {
                username: player.name.clone(),
                score: Score { drunk_cl: drunk, unit: room.unit },
            };
            assert(score_model(entry) == ps[k as int]);
            let mut pos: usize = 0;
            while pos < out.len() && out[pos].score.drunk_cl >= drunk
                invariant
                    0 <= pos <= out@.len(),
                    forall|a: int| 0 <= a < pos ==> (#[trigger] out@[a]).score.drunk_cl >= drunk,
                decreases out@.len() - pos,
            {
                pos += 1;
            }
            let ghost before = out@;
            out.insert(pos, entry);
            proof {
                assert(out@ == before.insert(pos as int, entry));
                assert forall|a: int, b: int| 0 <= a < b < out@.len() implies
                    #[trigger] out@[a].score.drunk_cl >= #[trigger] out@[b].score.drunk_cl by {
                    if b == pos {
                        assert(out@[a] == before[a]);
                    } else if a == pos {
                        assert(out@[b] == before[b - 1]);
                        assert(before[pos as int].score.drunk_cl < drunk);
                        if b - 1 > pos {
                            assert(before[pos as int].score.drunk_cl >= before[b - 1].score.drunk_cl);
                        }
                    } else if b < pos {
                        assert(out@[a] == before[a] && out@[b] == before[b]);
                    } else if a < pos {
                        assert(out@[a] == before[a] && out@[b] == before[b - 1]);
                    } else {
                        assert(out@[a] == before[a - 1] && out@[b] == before[b - 1]);
                    }
                }
                assert forall|a: int| 0 <= a < out@.len() implies (#[trigger] out@[a]).score.unit == room.unit by {
                    if a < pos {
                        assert(out@[a] == before[a]);
                    } else if a > pos {
                        assert(out@[a] == before[a - 1]);
                    }
                }
                let f = |p: PlayerScore| score_model(p);
                assert(out@.map_values(f) =~= before.map_values(f).insert(pos as int, ps[k as int]));
                vstd::seq_lib::to_multiset_insert(before.map_values(f), pos as int, ps[k as int]);
                assert(ps.take(k + 1) =~= ps.take(k as int).push(ps[k as int]));
                vstd::seq_lib::to_multiset_build(ps.take(k as int), ps[k as int]);
            }
            k += 1;
        }
        proof {
            assert(ps.take(k as int) =~= ps);
        }
        out
    }

    /// Removes every room that has had no activity for longer than the limit
    /// at time `now`, together with its players, and returns how many rooms
    /// went. The other rooms stay, in their order.
    pub fn remove_inactive(&mut self, now: u64) -> (removed: usize)
        requires
            old(self).wf(),
        ensures
            final(self).wf(),
            final(self)@ == active_rooms(old(self)@, now),
            removed == old(self)@.len() - final(self)@.len(),
            forall|k: int|
                0 <= k < final(self)@.len() ==> (#[trigger] final(self)@[k]).updated_at + 48 * 3600 >= now,
            forall|k: int|
                0 <= k < old(self)@.len() && (#[trigger] old(self)@[k]).updated_at + 48 * 3600 >= now
                    ==> has_room(final(self)@, old(self)@[k].id) && room_of(final(self)@, old(self)@[k].id)
                    == old(self)@[k],
            forall|k: int|
                0 <= k < old(self)@.len() && (#[trigger] old(self)@[k]).updated_at + 48 * 3600 < now
                    ==> !has_room(final(self)@, old(self)@[k].id),
    {
        let ghost orig = old(self)@;
        let ghost pred = is_kept(now);
        assert(forall|r: RoomModel| #[trigger] pred(r) == !is_stale(r, now));
        let mut pending: Vec<Room> = Vec::new();
        std::mem::swap(&mut pending, &mut self.rooms);
        let ghost raw = pending@;
        let total = pending.len();
        assert(orig == raw.map_values(|r: Room| r.model()));
        // First the rooms are popped into `reversed`, last room first.
        let mut reversed: Vec<Room> = Vec::new();
        while pending.len() > 0
            invariant
                pending@ == raw.take(pending@.len() as int),
                pending@.len() <= raw.len(),
                reversed@.len() == raw.len() - pending@.len(),
                forall|a: int| 0 <= a < reversed@.len() ==> #[trigger] reversed@[a] == raw[raw.len() - 1 - a],
            decreases pending@.len(),
        {
            let ghost before = pending@;
            let room = pending.pop().unwrap();
            assert(room == raw[before.len() - 1]);
            reversed.push(room);
            assert(pending@ =~= raw.take(pending@.len() as int));
        }
        // Then they are popped again, first room first, and kept when active.
        let mut kept: Vec<Room> = Vec::new();
        let mut dropped: usize = 0;
        proof {
            assert(raw.map_values(|r: Room| r.model()).take(0).filter(pred) =~= Seq::<RoomModel>::empty()) by {
                reveal(Seq::filter);
            }
            assert(kept@.map_values(|r: Room| r.model()) =~= Seq::<RoomModel>::empty());
        }
        while reversed.len() > 0
            invariant
                total == raw.len(),
                forall|r: RoomModel| #[trigger] pred(r) == !is_stale(r, now),
                orig == raw.map_values(|r: Room| r.model()),
                rooms_wf(orig),
                reversed@.len() <= raw.len(),
                forall|a: int| 0 <= a < reversed@.len() ==> #[trigger] reversed@[a] == raw[raw.len() - 1 - a],
                kept@.map_values(|r: Room| r.model()) == orig.take(raw.len() - reversed@.len()).filter(pred),
                dropped + kept@.len() == raw.len() - reversed@.len(),
                forall|a: int|
                    0 <= a < kept@.len() ==> exists|k: int|
                        0 <= k < raw.len() - reversed@.len() && (#[trigger] kept@[a]).model() == orig[k],
                forall|a: int, b: int|
                    0 <= a < kept@.len() && 0 <= b < kept@.len() && a != b ==> #[trigger] kept@[a].id
                        != #[trigger] kept@[b].id,
            decreases reversed@.len(),
        {
            let ghost done = (raw.len() - reversed@.len()) as int;
            let ghost kept_before = kept@;
            let room = reversed.pop().unwrap();
            assert(room == raw[done]);
            assert(room.model() == orig[done]);
            let stale = room.updated_at < now && now - room.updated_at > INACTIVITY_LIMIT_SECS;
            assert(stale == is_stale(orig[done], now));
            proof {
                reveal(Seq::filter);
                assert(orig.take(done + 1).drop_last() =~= orig.take(done));
                assert(orig.take(done + 1).last() == orig[done]);
                assert(pred(orig[done]) == !stale);
                if stale {
                    assert(orig.take(done + 1).filter(pred) == orig.take(done).filter(pred));
                } else {
                    assert(orig.take(done + 1).filter(pred) == orig.take(done).filter(pred).push(orig[done]));
                }
            }
            if stale {
                dropped += 1;
            } else {
                kept.push(room);
                proof {
                    assert(kept@.map_values(|r: Room| r.model()) =~= kept_before.map_values(|r: Room| r.model()).push(
                        orig[done],
                    ));
                    assert forall|a: int|
                        0 <= a < kept@.len() implies exists|k: int|
                            0 <= k < raw.len() - reversed@.len() && (#[trigger] kept@[a]).model() == orig[k] by {
                        if a == kept@.len() - 1 {
                            assert(kept@[a].model() == orig[done]);
                        } else {
                            assert(kept@[a] == kept_before[a]);
                        }
                    }
                    assert forall|a: int, b: int|
                        0 <= a < kept@.len() && 0 <= b < kept@.len() && a != b implies #[trigger] kept@[a].id
                            != #[trigger] kept@[b].id by {
                        if a == kept@.len() - 1 {
                            assert(kept@[b] == kept_before[b]);
                            let k = choose|k: int| 0 <= k < done && (#[trigger] kept_before[b]).model() == orig[k];
                            assert(orig[k].id != orig[done].id);
                        } else if b == kept@.len() - 1 {
                            assert(kept@[a] == kept_before[a]);
                            let k = choose|k: int| 0 <= k < done && (#[trigger] kept_before[a]).model() == orig[k];
                            assert(orig[k].id != orig[done].id);
                        } else {
                            assert(kept@[a] == kept_before[a]);
                            assert(kept@[b] == kept_before[b]);
                        }
                    }
                }
            }
        }
        self.rooms = kept;
        proof {
            assert(orig.take(raw.len() as int) =~= orig);
            let s = self@;
            assert forall|a: int, b: int|
                0 <= a < s.len() && 0 <= b < s.len() && a != b implies #[trigger] s[a].id != #[trigger] s[b].id by {
                assert(s[a].id == self.rooms@[a].id);
                assert(s[b].id == self.rooms@[b].id);
            }
            assert forall|a: int| 0 <= a < s.len() implies names_unique(#[trigger] s[a].players) by {
                assert(s[a] == self.rooms@[a].model());
                let k = choose|k: int| 0 <= k < raw.len() && (#[trigger] self.rooms@[a]).model() == orig[k];
                assert(names_unique(orig[k].players));
            }
            crate::laws::law_cleanup_by_idle_time(orig, now);
        }
        dropped
    }

    /// The stored settings of room `id`, if it exists.
    pub fn room_row(&self, id: u16) -> (r: Option<RoomRow>)
        requires
            self.wf(),
        ensures
            r is Some <==> has_room(self@, id),
            r matches Some(row) ==> {
                &&& row.room_id@ == room_id_text(id)
                &&& row.unit_size == room_of(self@, id).unit
                &&& row.unit_goal_bits == room_of(self@, id).goal_bits
            },
    {
        match self.find_room(id) {
            Some(i) => {
                let room = &self.rooms[i];
                Some(RoomRow { room_id: format_room_id(id), unit_size: room.unit, unit_goal_bits: room.goal_bits })
            },
            None => None,
        }
    }
}

} // verus!
