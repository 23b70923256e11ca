//! The integer evaluation that orders states in the macro-action beam search.

use vstd::prelude::*;
use crate::model::{
    count_of, hazards_of_kind, Enemy, GamePhase, GameState, HazardType, ItemType, Player, PlayerStatus,
};

verus! {

/// What one carried item is worth: ammunition is worth more the closer its carrier is
/// to the cannons (`cannon_path` is the length of the path there, if there is one).
pub open spec fn item_score(item: ItemType, at_cannon: bool, cannon_path: Option<usize>) -> int {
    match item {
        ItemType::Peppernut => 20 + if at_cannon {
            50int
        } else {
            match cannon_path {
                Some(l) => (10 - l) * 5,
                None => 0int,
            }
        },
        ItemType::Extinguisher => 10,
        _ => 1,
    }
}

/// What an inventory is worth.
pub open spec fn inventory_score(inv: Seq<ItemType>, at_cannon: bool, cannon_path: Option<usize>) -> int
    decreases inv.len(),
{
    if inv.len() == 0 {
        0
    } else {
        inventory_score(inv.drop_last(), at_cannon, cannon_path) + item_score(
            inv.last(),
            at_cannon,
            cannon_path,
        )
    }
}

/// What the crew is worth: ten per hit point, plus their inventories.
pub open spec fn crew_score(ps: Seq<Player>, paths: Seq<Option<usize>>, cannon: u32) -> int
    decreases ps.len(),
{
    if ps.len() == 0 {
        0
    } else {
        let p = ps.last();
        crew_score(ps.drop_last(), paths, cannon) + p.hp * 10 + inventory_score(
            p.inventory@,
            p.room_id == cannon,
            paths[ps.len() - 1],
        )
    }
}

/// Number of fainted players.
pub open spec fn fainted_total(ps: Seq<Player>) -> nat
    decreases ps.len(),
{
    if ps.len() == 0 {
        0
    } else {
        fainted_total(ps.drop_last()) + if ps.last().status@.contains(PlayerStatus::Fainted) {
            1nat
        } else {
            0nat
        }
    }
}

/// The evaluation of `s`: a lost game is worth -100000; otherwise progress, damage to
/// the boss, hull, crew health and items count for it, and time, hazards, fainted
/// players and open situations against it.
pub open spec fn evaluate_spec(s: GameState, paths: Seq<Option<usize>>, cannon: u32) -> int {
    if s.phase == GamePhase::GameOver {
        -100000
    } else {
        s.boss_level * 5000 - s.turn_count * 50 + (if s.phase == GamePhase::Victory {
            100000int
        } else {
            0int
        }) + (s.enemy.max_hp - s.enemy.hp) * 500 - s.enemy.hp * 100 + s.hull_integrity * 100
            - hazards_of_kind(s.rooms@, HazardType::Fire) * 40 - hazards_of_kind(
            s.rooms@,
            HazardType::Water,
        ) * 10 + crew_score(s.players@, paths, cannon) - fainted_total(s.players@) * 200
            - s.active_situations@.len() * 20
    }
}

/// The sizes under which the evaluation fits its 32-bit result.
pub open spec fn evaluate_bounds(s: GameState, paths: Seq<Option<usize>>) -> bool {
    &&& s.boss_level <= 10000
    &&& s.turn_count <= 1000000
    &&& -100000 <= s.hull_integrity <= 100000
    &&& -100000 <= s.enemy.hp <= 100000
    &&& -100000 <= s.enemy.max_hp <= 100000
    &&& s.players@.len() <= 64
    &&& paths.len() == s.players@.len()
    &&& forall|i: int|
        #![trigger s.players@[i]]
        0 <= i < s.players@.len() ==> -100000 <= s.players@[i].hp <= 100000
            && s.players@[i].inventory@.len() <= 64
    &&& forall|i: int| #![trigger paths[i]] 0 <= i < paths.len() && paths[i] is Some ==> paths[i]->0 <= 1000
    &&& s.rooms@.len() <= 64
    &&& forall|i: int| #![trigger s.rooms@[i]] 0 <= i < s.rooms@.len() ==> s.rooms@[i].hazards@.len() <= 64
    &&& s.active_situations@.len() <= 1000
}

proof fn lemma_count_le<T>(s: Seq<T>, x: T)
    ensures
        count_of(s, x) <= s.len(),
    decreases s.len(),
{
    if s.len() > 0 {
        lemma_count_le(s.drop_last(), x);
    }
}

proof fn lemma_inventory_bound(inv: Seq<ItemType>, at: bool, path: Option<usize>)
    requires
        path is Some ==> path->0 <= 1000,
    ensures
        -5000 * inv.len() <= inventory_score(inv, at, path) <= 5000 * inv.len(),
    decreases inv.len(),
{
    if inv.len() > 0 {
        lemma_inventory_bound(inv.drop_last(), at, path);
    }
}

proof fn lemma_crew_bound(ps: Seq<Player>, paths: Seq<Option<usize>>, cannon: u32)
    requires
        paths.len() >= ps.len(),
        forall|i: int|
            #![trigger ps[i]]
            0 <= i < ps.len() ==> -100000 <= ps[i].hp <= 100000 && ps[i].inventory@.len() <= 64,
        forall|i: int| #![trigger paths[i]] 0 <= i < paths.len() && paths[i] is Some ==> paths[i]->0 <= 1000,
    ensures
        -1400000 * ps.len() <= crew_score(ps, paths, cannon) <= 1400000 * ps.len(),
        fainted_total(ps) <= ps.len(),
    decreases ps.len(),
{
    if ps.len() > 0 {
        let p = ps.last();
        assert(ps[ps.len() - 1] == p);
        assert(forall|i: int| 0 <= i < ps.drop_last().len() ==> ps.drop_last()[i] == ps[i]);
        lemma_crew_bound(ps.drop_last(), paths, cannon);
        let pth = paths[ps.len() - 1];
        lemma_inventory_bound(p.inventory@, p.room_id == cannon, pth);
    }
}

proof fn lemma_hazards_bound(rs: Seq<crate::model::Room>, h: HazardType)
    requires
        forall|i: int| #![trigger rs[i]] 0 <= i < rs.len() ==> rs[i].hazards@.len() <= 64,
    ensures
        hazards_of_kind(rs, h) <= 64 * rs.len(),
    decreases rs.len(),
{
    if rs.len() > 0 {
        assert(rs[rs.len() - 1] == rs.last());
        assert(forall|i: int| 0 <= i < rs.drop_last().len() ==> rs.drop_last()[i] == rs[i]);
        lemma_hazards_bound(rs.drop_last(), h);
        lemma_count_le(rs.last().hazards@, h);
    }
}

fn contains_fainted(status: &Vec<PlayerStatus>) -> (b: bool)
    ensures
        b == status@.contains(PlayerStatus::Fainted),
{
    let mut i: usize = 0;
    while i < status.len()
        invariant
            0 <= i <= status.len(),
            forall|j: int| 0 <= j < i ==> status@[j] != PlayerStatus::Fainted,
        decreases status.len() - i,
    {
        if status[i] == PlayerStatus::Fainted {
            return true;
        }
        i += 1;
    }
    false
}

fn count_hazards_of_kind(state: &GameState, h: HazardType) -> (n: u64)
    requires
        state.rooms@.len() <= 64,
        forall|i: int| #![trigger state.rooms@[i]] 0 <= i < state.rooms@.len() ==> state.rooms@[i].hazards@.len() <= 64,
    ensures
        n == hazards_of_kind(state.rooms@, h),
        n <= 4096,
{
    let mut n: u64 = 0;
    let mut i: usize = 0;
    while i < state.rooms.len()
        invariant
            0 <= i <= state.rooms@.len() <= 64,
            forall|k: int| #![trigger state.rooms@[k]] 0 <= k < state.rooms@.len() ==> state.rooms@[k].hazards@.len() <= 64,
            n == hazards_of_kind(state.rooms@.take(i as int), h),
            n <= 64 * i,
        decreases state.rooms@.len() - i,
    {
        let room = &state.rooms[i];
        let mut c: u64 = 0;
        let mut j: usize = 0;
        while j < room.hazards.len()
            invariant
                0 <= j <= room.hazards@.len() <= 64,
                c == count_of(room.hazards@.take(j as int), h),
                c <= j,
            decreases room.hazards@.len() - j,
        {
            proof {
                assert(room.hazards@.take(j + 1).drop_last() =~= room.hazards@.take(j as int));
            }
            if room.hazards[j] == h {
                c += 1;
            }
            j += 1;
        }
        proof {
            assert(room.hazards@.take(j as int) =~= room.hazards@);
            assert(state.rooms@.take(i + 1).drop_last() =~= state.rooms@.take(i as int));
        }
        n += c;
        i += 1;
    }
    proof {
        assert(state.rooms@.take(i as int) =~= state.rooms@);
    }
    n
}

/// Scores `state` for the macro-action beam search (higher is better).
///
/// `cannon_paths[i]` is the length of the path from player `i`'s room to the cannon
/// room `cannon_room`, where one exists.
pub fn evaluate(state: &GameState, cannon_paths: &Vec<Option<usize>>, cannon_room: u32) -> (r: i32)
    requires
        evaluate_bounds(*state, cannon_paths@),
    ensures
        r == evaluate_spec(*state, cannon_paths@, cannon_room),
{
    if state.phase == GamePhase::GameOver {
        return -100000;
    }
    let fires = count_hazards_of_kind(state, HazardType::Fire);
    let waters = count_hazards_of_kind(state, HazardType::Water);
    let mut crew: i64 = 0;
    let mut fainted: u64 = 0;
    let mut i: usize = 0;
    let np = state.players.len();
    while i < np
        invariant
            evaluate_bounds(*state, cannon_paths@),
            np == state.players@.len(),
            0 <= i <= np,
            crew == crew_score(state.players@.take(i as int), cannon_paths@, cannon_room),
            fainted == fainted_total(state.players@.take(i as int)),
            -1400000 * i <= crew <= 1400000 * i,
            fainted <= i,
        decreases np - i,
    {
        let p = &state.players[i];
        let at_cannon = p.room_id == cannon_room;
        let path = cannon_paths[i];
        let mut inv: i64 = 0;
        let mut j: usize = 0;
        assert(p.inventory@.len() <= 64);
        while j < p.inventory.len()
            invariant
                0 <= j <= p.inventory@.len() <= 64,
                path is Some ==> path->0 <= 1000,
                inv == inventory_score(p.inventory@.take(j as int), at_cannon, path),
                -5000 * j <= inv <= 5000 * j,
            decreases p.inventory@.len() - j,
        {
            proof {
                assert(p.inventory@.take(j + 1).drop_last() =~= p.inventory@.take(j as int));
            }
            let v: i64 = match p.inventory[j] {
                ItemType::Peppernut => {
                    if at_cannon {
                        70
                    } else {
                        match path {
                            Some(l) => 20 + (10 - l as i64) * 5,
                            None => 20,
                        }
                    }
                },
                ItemType::Extinguisher => 10,
                _ => 1,
            };
            inv += v;
            j += 1;
        }
        proof {
            assert(p.inventory@.take(j as int) =~= p.inventory@);
            assert(state.players@.take(i + 1).drop_last() =~= state.players@.take(i as int));
            assert(state.players@.take(i + 1).last() == *p);
        }
        crew = crew + (p.hp as i64) * 10 + inv;
        if contains_fainted(&p.status) {
            fainted += 1;
        }
        i += 1;
    }
    proof {
        assert(state.players@.take(i as int) =~= state.players@);
        lemma_hazards_bound(state.rooms@, HazardType::Fire);
    }
    let mut score: i64 = (state.boss_level as i64) * 5000 - (state.turn_count as i64) * 50;
    if state.phase == GamePhase::Victory {
        score += 100000;
    }
    score += ((state.enemy.max_hp as i64) - (state.enemy.hp as i64)) * 500;
    score -= (state.enemy.hp as i64) * 100;
    score += (state.hull_integrity as i64) * 100;
    score -= (fires as i64) * 40;
    score -= (waters as i64) * 10;
    score += crew;
    score -= (fainted as i64) * 200;
    score -= (state.active_situations.len() as i64) * 20;
    score as i32
}

} // verus!

verus! {

/// Every point of hull is worth 100, and a won game 100000 more than the same state
/// still in play; a lost game is worth -100000 whatever else holds.
pub proof fn lemma_evaluation_weights(s: GameState, paths: Seq<Option<usize>>, cannon: u32, h: i32)
    ensures
        s.phase != GamePhase::GameOver ==> evaluate_spec(
            GameState { hull_integrity: h, ..s },
            paths,
            cannon,
        ) - evaluate_spec(s, paths, cannon) == (h - s.hull_integrity) * 100,
        s.phase != GamePhase::GameOver && s.phase != GamePhase::Victory ==> evaluate_spec(
            GameState { phase: GamePhase::Victory, ..s },
            paths,
            cannon,
        ) - evaluate_spec(s, paths, cannon) == 100000,
        evaluate_spec(GameState { phase: GamePhase::GameOver, ..s }, paths, cannon) == -100000,
{
}

/// Damaging the boss always pays: in a game not lost, every hit point the enemy loses
/// (all else equal) raises the evaluation by exactly 600, 500 for the damage dealt and
/// 100 for the hit point it no longer has; and raising the enemy's maximum hit points
/// at the same hit points counts as 500 more damage per point.
pub proof fn lemma_boss_damage_weight(s: GameState, paths: Seq<Option<usize>>, cannon: u32, hp: i32, max_hp: i32)
    requires
        s.phase != GamePhase::GameOver,
    ensures
        evaluate_spec(GameState { enemy: Enemy { hp, ..s.enemy }, ..s }, paths, cannon)
            - evaluate_spec(s, paths, cannon) == (s.enemy.hp - hp) * 600,
        evaluate_spec(GameState { enemy: Enemy { max_hp, ..s.enemy }, ..s }, paths, cannon)
            - evaluate_spec(s, paths, cannon) == (max_hp - s.enemy.max_hp) * 500,
{
}

} // verus!
