//! Properties of the store that span several operations.

use vstd::prelude::*;
use crate::store::{
    active_rooms, drink_added, drink_removed, has_player, has_room, is_kept, is_stale, joined,
    lemma_player_index, lemma_room_index, names_unique, new_room, player_index, room_index, room_of,
    rooms_wf, with_drunk, PlayerModel, RoomModel,
};
use crate::units::UnitSize;
use vstd::set_lib::{lemma_int_range, lemma_len_subset, set_int_range};

verus! {

/// A room opened under a fresh code is found under that code, as it was
/// opened and with no players; every other code names the same room as
/// before, or none as before; and the store stays well formed.
pub proof fn law_opened_room_is_found(
    s: Seq<RoomModel>,
    id: u16,
    unit: UnitSize,
    goal_bits: u64,
    now: u64,
    other: u16,
)
    requires
        rooms_wf(s),
        !has_room(s, id),
    ensures
        ({
            let t = s.push(new_room(id, unit, goal_bits, now));
            &&& rooms_wf(t)
            &&& has_room(t, id)
            &&& room_of(t, id) == new_room(id, unit, goal_bits, now)
            &&& room_of(t, id).players.len() == 0
            &&& other != id ==> has_room(t, other) == has_room(s, other)
            &&& other != id && has_room(s, other) ==> room_of(t, other) == room_of(s, other)
        }),
{
    let r = new_room(id, unit, goal_bits, now);
    let t = s.push(r);
    assert forall|i: int, j: int| 0 <= i < t.len() && 0 <= j < t.len() && i != j implies #[trigger] t[i].id
        != #[trigger] t[j].id by {
        if i == s.len() {
            assert(t[j] == s[j]);
        } else if j == s.len() {
            assert(t[i] == s[i]);
        } else {
            assert(t[i] == s[i] && t[j] == s[j]);
        }
    }
    assert forall|i: int| 0 <= i < t.len() implies names_unique(#[trigger] t[i].players) by {
        if i < s.len() {
            assert(t[i] == s[i]);
        }
    }
    lemma_room_index(t, id, s.len() as int);
    if other != id {
        if has_room(s, other) {
            let k = room_index(s, other);
            assert(t[k] == s[k]);
            lemma_room_index(t, other, k);
        }
        if has_room(t, other) {
            let k = room_index(t, other);
            assert(k < s.len());
            assert(s[k] == t[k]);
        }
    }
}

/// Changing one room in place, under the same code, changes what that code
/// names and nothing else: every other code names the same room as before.
pub proof fn law_other_rooms_untouched(s: Seq<RoomModel>, i: int, r: RoomModel, other: u16)
    requires
        rooms_wf(s),
        0 <= i < s.len(),
        r.id == s[i].id,
        names_unique(r.players),
    ensures
        ({
            let t = s.update(i, r);
            &&& rooms_wf(t)
            &&& has_room(t, other) == has_room(s, other)
            &&& has_room(t, other) ==> room_index(t, other) == room_index(s, other)
            &&& other == s[i].id ==> room_of(t, other) == r
            &&& other != s[i].id && has_room(s, other) ==> room_of(t, other) == room_of(s, other)
        }),
{
    let t = s.update(i, r);
    assert forall|a: int, b: int| 0 <= a < t.len() && 0 <= b < t.len() && a != b implies #[trigger] t[a].id
        != #[trigger] t[b].id by {
        assert(t[a].id == s[a].id && t[b].id == s[b].id);
    }
    assert forall|a: int| 0 <= a < t.len() implies names_unique(#[trigger] t[a].players) by {
        if a != i {
            assert(t[a] == s[a]);
        }
    }
    if has_room(s, other) {
        let k = room_index(s, other);
        assert(t[k].id == s[k].id);
        lemma_room_index(t, other, k);
    }
    if has_room(t, other) {
        let k = room_index(t, other);
        assert(s[k].id == t[k].id);
        lemma_room_index(s, other, k);
    }
}

/// A player who joins a room is found in it under that name with nothing
/// drunk; the players who were there keep their places and totals, and the
/// names stay unique.
pub proof fn law_joined_player_is_found(r: RoomModel, name: Seq<char>, now: u64)
    requires
        names_unique(r.players),
        !has_player(r.players, name),
    ensures
        ({
            let t = joined(r, name, now);
            &&& names_unique(t.players)
            &&& has_player(t.players, name)
            &&& t.players[player_index(t.players, name)] == (PlayerModel { name, drunk_cl: 0 })
            &&& t.players.len() == r.players.len() + 1
            &&& forall|j: int| 0 <= j < r.players.len() ==> #[trigger] t.players[j] == r.players[j]
        }),
{
    let t = joined(r, name, now);
    let ps = t.players;
    assert forall|a: int, b: int| 0 <= a < ps.len() && 0 <= b < ps.len() && a != b implies #[trigger] ps[a].name
        != #[trigger] ps[b].name by {
        if a == r.players.len() {
            assert(ps[b] == r.players[b]);
        } else if b == r.players.len() {
            assert(ps[a] == r.players[a]);
        } else {
            assert(ps[a] == r.players[a] && ps[b] == r.players[b]);
        }
    }
    lemma_player_index(ps, name, r.players.len() as int);
}

/// Adding a drink and then taking back one of the same size gives every
/// player of the room the total they had before, as long as the total did
/// not reach the largest `u64`.
pub proof fn law_undo_restores_totals(r: RoomModel, j: int, cl: u64, t1: u64, t2: u64)
    requires
        0 <= j < r.players.len(),
        r.players[j].drunk_cl + cl <= u64::MAX,
    ensures
        ({
            let added = drink_added(r.players[j].drunk_cl, cl);
            let after_add = with_drunk(r, j, added, t1);
            let after_undo = with_drunk(after_add, j, drink_removed(after_add.players[j].drunk_cl, cl), t2);
            after_undo.players == r.players
        }),
{
    let added = drink_added(r.players[j].drunk_cl, cl);
    let after_add = with_drunk(r, j, added, t1);
    let after_undo = with_drunk(after_add, j, drink_removed(after_add.players[j].drunk_cl, cl), t2);
    assert(after_undo.players =~= r.players);
}

/// A drink only ever raises a total (strictly, below the largest `u64`), and
/// taking one back only ever lowers it, to zero at the least: taking back
/// more than was drunk leaves zero.
pub proof fn law_totals_move_the_right_way(drunk: u64, cl: u64)
    ensures
        drink_added(drunk, cl) >= drunk,
        cl > 0 && drunk + cl <= u64::MAX ==> drink_added(drunk, cl) > drunk,
        drink_removed(drunk, cl) <= drunk,
        drunk <= cl ==> drink_removed(drunk, cl) == 0,
        drunk >= cl ==> drink_removed(drunk, cl) == drunk - cl,
{
}

/// Keeping the active rooms of a well-formed store gives a well-formed store.
proof fn lemma_active_rooms_wf(s: Seq<RoomModel>, now: u64)
    requires
        rooms_wf(s),
    ensures
        rooms_wf(active_rooms(s, now)),
    decreases s.len(),
{
    reveal(Seq::filter);
    if s.len() > 0 {
        let rest = s.drop_last();
        assert(rooms_wf(rest)) by {
            assert forall|a: int, b: int| 0 <= a < rest.len() && 0 <= b < rest.len() && a != b implies #[trigger] rest[a].id
                != #[trigger] rest[b].id by {
                assert(rest[a] == s[a] && rest[b] == s[b]);
            }
            assert forall|a: int| 0 <= a < rest.len() implies names_unique(#[trigger] rest[a].players) by {
                assert(rest[a] == s[a]);
            }
        }
        lemma_active_rooms_wf(rest, now);
        let f = rest.filter(is_kept(now));
        if is_kept(now)(s.last()) {
            let g = f.push(s.last());
            assert(active_rooms(s, now) == g);
            assert forall|a: int, b: int| 0 <= a < g.len() && 0 <= b < g.len() && a != b implies #[trigger] g[a].id
                != #[trigger] g[b].id by {
                if a == f.len() || b == f.len() {
                    let c = if a == f.len() { b } else { a };
                    assert(f.contains(g[c]));
                    rest.lemma_filter_contains_rev(is_kept(now), g[c]);
                    let k = choose|k: int| 0 <= k < rest.len() && rest[k] == g[c];
                    assert(s[k] == rest[k]);
                    assert(s[s.len() - 1] == s.last());
                } else {
                    assert(g[a] == f[a] && g[b] == f[b]);
                }
            }
            assert forall|a: int| 0 <= a < g.len() implies names_unique(#[trigger] g[a].players) by {
                if a == f.len() {
                    assert(s[s.len() - 1] == s.last());
                } else {
                    assert(g[a] == f[a]);
                }
            }
        } else {
            assert(active_rooms(s, now) == f);
        }
    }
}

/// After the inactive rooms are removed at time `now`, a code names a room
/// exactly when it named one before that was not stale, and then the same
/// room; no stale room is left.
pub proof fn law_cleanup_keeps_exactly_active_rooms(s: Seq<RoomModel>, now: u64, id: u16)
    requires
        rooms_wf(s),
    ensures
        ({
            let t = active_rooms(s, now);
            &&& rooms_wf(t)
            &&& has_room(t, id) <==> (has_room(s, id) && !is_stale(room_of(s, id), now))
            &&& has_room(t, id) ==> room_of(t, id) == room_of(s, id)
            &&& forall|k: int| 0 <= k < t.len() ==> !is_stale(#[trigger] t[k], now)
        }),
{
    let t = active_rooms(s, now);
    lemma_active_rooms_wf(s, now);
    assert forall|k: int| 0 <= k < t.len() implies !is_stale(#[trigger] t[k], now) by {
        s.lemma_filter_pred(is_kept(now), k);
    }
    if has_room(s, id) && !is_stale(room_of(s, id), now) {
        let k = room_index(s, id);
        s.lemma_filter_contains(is_kept(now), k);
        let a = choose|a: int| 0 <= a < t.len() && t[a] == s[k];
        lemma_room_index(t, id, a);
    }
    if has_room(t, id) {
        let a = room_index(t, id);
        assert(t.contains(t[a]));
        s.lemma_filter_contains_rev(is_kept(now), t[a]);
        let k = choose|k: int| 0 <= k < s.len() && s[k] == t[a];
        lemma_room_index(s, id, k);
        s.lemma_filter_pred(is_kept(now), a);
    }
}

/// The codes that name rooms are no more than the rooms, so while a store
/// has fewer rooms than there are codes, some code names no room: a draw of
/// that code opens a room rather than being refused as taken.
pub proof fn law_free_code_exists(s: Seq<RoomModel>)
    requires
        rooms_wf(s),
        s.len() < 65536,
    ensures
        exists|c: u16| !has_room(s, c),
{
    let ids = s.map_values(|r: RoomModel| r.id as int);
    let taken = ids.to_set();
    ids.lemma_cardinality_of_set();
    vstd::seq_lib::seq_to_set_is_finite(ids);
    if forall|c: u16| has_room(s, c) {
        let all = set_int_range(0, 65536);
        lemma_int_range(0, 65536);
        assert forall|i: int| all.contains(i) implies taken.contains(i) by {
            let c = i as u16;
            assert(has_room(s, c));
            let k = choose|k: int| 0 <= k < s.len() && #[trigger] s[k].id == c;
            assert(ids[k] == i);
        }
        lemma_len_subset(all, taken);
        assert(false);
    }
}

/// Cleanup at time `now`, stated on the rooms' last-activity times: every
/// room left was active within the last 48 hours (`updated_at + 48 h >=
/// now`); every room that was active within the last 48 hours is left,
/// unchanged; and every room idle for longer is gone.
pub proof fn law_cleanup_by_idle_time(s: Seq<RoomModel>, now: u64)
    requires
        rooms_wf(s),
    ensures
        ({
            let t = active_rooms(s, now);
            &&& forall|k: int| 0 <= k < t.len() ==> (#[trigger] t[k]).updated_at + 48 * 3600 >= now
            &&& forall|k: int|
                0 <= k < s.len() && (#[trigger] s[k]).updated_at + 48 * 3600 >= now ==> has_room(t, s[k].id)
                    && room_of(t, s[k].id) == s[k]
            &&& forall|k: int|
                0 <= k < s.len() && (#[trigger] s[k]).updated_at + 48 * 3600 < now ==> !has_room(t, s[k].id)
        }),
{
    let t = active_rooms(s, now);
    assert forall|k: int| 0 <= k < t.len() implies (#[trigger] t[k]).updated_at + 48 * 3600 >= now by {
        s.lemma_filter_pred(is_kept(now), k);
    }
    assert forall|k: int| 0 <= k < s.len() && (#[trigger] s[k]).updated_at + 48 * 3600 >= now implies has_room(
        t,
        s[k].id,
    ) && room_of(t, s[k].id) == s[k] by {
        lemma_room_index(s, s[k].id, k);
        law_cleanup_keeps_exactly_active_rooms(s, now, s[k].id);
    }
    assert forall|k: int| 0 <= k < s.len() && (#[trigger] s[k]).updated_at + 48 * 3600 < now implies !has_room(
        t,
        s[k].id,
    ) by {
        lemma_room_index(s, s[k].id, k);
        law_cleanup_keeps_exactly_active_rooms(s, now, s[k].id);
    }
}

} // verus!
