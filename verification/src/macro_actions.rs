//! Macro tasks: short plans a player can follow this round (walk somewhere, then act).

use vstd::prelude::*;
use crate::model::{copy_action, Duplicate, GameAction, GameState, HazardType, ItemType, Player, PlayerStatus, Room};
use crate::text::text_equal;

verus! {

broadcast use vstd::string::group_string_axioms;

/// A plan for one player: a description, the actions to take, and their AP cost.
pub struct PlayerTask {
    pub player_id: String,
    pub description: String,
    pub actions: Vec<GameAction>,
    pub cost: i32,
}

/// A copy of `v`, equal to it.
pub fn duplicate_actions(v: &Vec<GameAction>) -> (r: Vec<GameAction>)
    ensures
        r@ == v@,
{
    let mut r: Vec<GameAction> = Vec::new();
    let mut i: usize = 0;
    while i < v.len()
        invariant
            0 <= i <= v@.len(),
            r@ == v@.take(i as int),
        decreases v@.len() - i,
    {
        r.push(copy_action(&v[i]));
        i += 1;
        assert(r@ =~= v@.take(i as int));
    }
    assert(v@.take(i as int) =~= v@);
    r
}

impl Duplicate for PlayerTask {
    fn duplicate(&self) -> (r: PlayerTask) {
        let r = PlayerTask {
            player_id: self.player_id.clone(),
            description: self.description.clone(),
            actions: duplicate_actions(&self.actions),
            cost: self.cost,
        };
        assert(r.actions@ =~= self.actions@);
        r
    }
}

/// The value of a [`PlayerTask`].
pub struct TaskView {
    pub player_id: Seq<char>,
    pub description: Seq<char>,
    pub actions: Seq<GameAction>,
    pub cost: int,
}

impl View for PlayerTask {
    type V = TaskView;

    open spec fn view(&self) -> TaskView {
        TaskView {
            player_id: self.player_id@,
            description: self.description@,
            actions: self.actions@,
            cost: self.cost as int,
        }
    }
}

/// The values of a list of tasks.
pub open spec fn tasks_view(ts: Seq<PlayerTask>) -> Seq<TaskView> {
    ts.map_values(|t: PlayerTask| t@)
}

/// The rooms that hold the ship's kitchen, cannons and engine.
pub struct SystemRooms {
    pub kitchen: u32,
    pub cannons: u32,
    pub engine: u32,
}

/// The path (rooms to walk through, in order) that the table `t` gives to room `r`:
/// the first entry for `r`, if any.
pub open spec fn path_to(t: Seq<(u32, Vec<u32>)>, r: u32) -> Option<Seq<u32>>
    decreases t.len(),
{
    if t.len() == 0 {
        None
    } else if t[0].0 == r {
        Some(t[0].1@)
    } else {
        path_to(t.drop_first(), r)
    }
}

/// The first room with id `id`, if any.
pub open spec fn room_of(rs: Seq<Room>, id: u32) -> Option<Room>
    decreases rs.len(),
{
    if rs.len() == 0 {
        None
    } else if rs[0].id == id {
        Some(rs[0])
    } else {
        room_of(rs.drop_first(), id)
    }
}

/// The first player whose id is `id`, if any.
pub open spec fn player_of(ps: Seq<Player>, id: Seq<char>) -> Option<Player>
    decreases ps.len(),
{
    if ps.len() == 0 {
        None
    } else if ps[0].id@ == id {
        Some(ps[0])
    } else {
        player_of(ps.drop_first(), id)
    }
}

/// Moves through the rooms of `p`, in order.
pub open spec fn moves_along(p: Seq<u32>) -> Seq<GameAction> {
    p.map_values(|r: u32| GameAction::Move { to_room: r })
}

/// A task that walks `path` and then does `finish` (costing `extra` AP), when the
/// player's `ap` covers it; otherwise, where a `partial` description is given, a task
/// that walks as far along `path` as `ap` allows, if that is at least one step.
pub open spec fn reach_tasks(
    pid: Seq<char>,
    path: Option<Seq<u32>>,
    ap: int,
    extra: int,
    finish: GameAction,
    full: Seq<char>,
    partial: Option<Seq<char>>,
) -> Seq<TaskView> {
    match path {
        None => Seq::empty(),
        Some(p) => if p.len() + extra <= ap {
            seq![
                TaskView {
                    player_id: pid,
                    description: full,
                    actions: moves_along(p).push(finish),
                    cost: p.len() + extra,
                },
            ]
        } else {
            match partial {
                None => Seq::empty(),
                Some(d) => {
                    let k = if ap <= 0 {
                        0
                    } else if ap < p.len() {
                        ap
                    } else {
                        p.len() as int
                    };
                    if k > 0 {
                        seq![
                            TaskView {
                                player_id: pid,
                                description: d,
                                actions: moves_along(p.take(k)),
                                cost: k,
                            },
                        ]
                    } else {
                        Seq::empty()
                    }
                },
            }
        },
    }
}

/// Extinguish (or, for water, repair) tasks for each room of `rs` holding hazard `h`,
/// in room order.
pub open spec fn hazard_tasks(
    pid: Seq<char>,
    rs: Seq<Room>,
    t: Seq<(u32, Vec<u32>)>,
    ap: int,
    h: HazardType,
) -> Seq<TaskView>
    decreases rs.len(),
{
    if rs.len() == 0 {
        Seq::empty()
    } else {
        let r = rs.last();
        hazard_tasks(pid, rs.drop_last(), t, ap, h) + if r.hazards@.contains(h) {
            if h == HazardType::Fire {
                reach_tasks(
                    pid,
                    path_to(t, r.id),
                    ap,
                    1,
                    GameAction::Extinguish,
                    "Extinguish in "@ + r.name@,
                    Some("Move towards Fire in "@ + r.name@),
                )
            } else {
                reach_tasks(
                    pid,
                    path_to(t, r.id),
                    ap,
                    1,
                    GameAction::Repair,
                    "Repair in "@ + r.name@,
                    Some("Move towards Water in "@ + r.name@),
                )
            }
        } else {
            Seq::empty()
        }
    }
}

/// Revive tasks for each fainted player of `ps` standing in room `start`.
pub open spec fn revive_tasks(pid: Seq<char>, ps: Seq<Player>, start: u32, ap: int) -> Seq<TaskView>
    decreases ps.len(),
{
    if ps.len() == 0 {
        Seq::empty()
    } else {
        let o = ps.last();
        revive_tasks(pid, ps.drop_last(), start, ap) + if o.room_id == start
            && o.status@.contains(PlayerStatus::Fainted) && ap >= 1 {
            seq![
                TaskView {
                    player_id: pid,
                    description: "Revive "@ + o.name@,
                    actions: seq![GameAction::Revive { target_player: o.id }],
                    cost: 1,
                },
            ]
        } else {
            Seq::empty()
        }
    }
}

/// The tasks for player `p` (id `pid`) in `s`, given the path table `t` from the
/// player's room: pass; extinguish each fire and repair each water (walking towards
/// it if out of reach); bake; shoot, when carrying ammunition; pick up ammunition in
/// the current room; revive fainted players in the current room; evasive manoeuvres
/// at the engine, when in reach.
pub open spec fn tasks_spec(
    s: GameState,
    pid: Seq<char>,
    p: Player,
    t: Seq<(u32, Vec<u32>)>,
    sys: SystemRooms,
) -> Seq<TaskView> {
    let ap = p.ap as int;
    let start = p.room_id;
    let here = room_of(s.rooms@, start);
    seq![
        TaskView {
            player_id: pid,
            description: "Pass"@,
            actions: seq![GameAction::Pass],
            cost: 0,
        },
    ] + hazard_tasks(pid, s.rooms@, t, ap, HazardType::Fire) + hazard_tasks(
        pid,
        s.rooms@,
        t,
        ap,
        HazardType::Water,
    ) + reach_tasks(
        pid,
        path_to(t, sys.kitchen),
        ap,
        1,
        GameAction::Bake,
        "Bake"@,
        Some("Move towards Kitchen"@),
    ) + (if p.inventory@.contains(ItemType::Peppernut) {
        reach_tasks(
            pid,
            path_to(t, sys.cannons),
            ap,
            1,
            GameAction::Shoot,
            "Shoot"@,
            Some("Move towards Cannons"@),
        )
    } else {
        Seq::empty()
    }) + (match here {
        Some(room) => if room.items@.contains(ItemType::Peppernut) && ap >= 1 {
            seq![
                TaskView {
                    player_id: pid,
                    description: "Pickup Ammo"@,
                    actions: seq![GameAction::PickUp { item_type: ItemType::Peppernut }],
                    cost: 1,
                },
            ]
        } else {
            Seq::empty()
        },
        None => Seq::empty(),
    }) + (if here is Some {
        revive_tasks(pid, s.players@, start, ap)
    } else {
        Seq::empty()
    }) + reach_tasks(
        pid,
        path_to(t, sys.engine),
        ap,
        2,
        GameAction::EvasiveManeuvers,
        "Evasion"@,
        None,
    )
}

/// Paths in the table are short enough for their costs to be counted in 32 bits.
pub open spec fn paths_bounded(t: Seq<(u32, Vec<u32>)>) -> bool {
    forall|i: int| #![trigger t[i]] 0 <= i < t.len() ==> t[i].1@.len() <= 1000000
}

fn lookup_path(t: &Vec<(u32, Vec<u32>)>, r: u32) -> (res: Option<usize>)
    ensures
        match path_to(t@, r) {
            Some(p) => res is Some && res->0 < t@.len() && t@[res->0 as int].1@ == p,
            None => res is None,
        },
{
    let mut i: usize = 0;
    assert(t@.skip(0) =~= t@);
    while i < t.len()
        invariant
            0 <= i <= t@.len(),
            path_to(t@, r) == path_to(t@.skip(i as int), r),
        decreases t@.len() - i,
    {
        proof {
            assert(t@.skip(i as int).drop_first() =~= t@.skip(i + 1));
        }
        if t[i].0 == r {
            return Some(i);
        }
        i += 1;
    }
    None
}

fn contains_item(v: &Vec<ItemType>, x: ItemType) -> (b: bool)
    ensures
        b == v@.contains(x),
{
    let mut i: usize = 0;
    while i < v.len()
        invariant
            0 <= i <= v@.len(),
            forall|j: int| 0 <= j < i ==> v@[j] != x,
        decreases v@.len() - i,
    {
        if v[i] == x {
            return true;
        }
        i += 1;
    }
    false
}

fn contains_hazard(v: &Vec<HazardType>, x: HazardType) -> (b: bool)
    ensures
        b == v@.contains(x),
{
    let mut i: usize = 0;
    while i < v.len()
        invariant
            0 <= i <= v@.len(),
            forall|j: int| 0 <= j < i ==> v@[j] != x,
        decreases v@.len() - i,
    {
        if v[i] == x {
            return true;
        }
        i += 1;
    }
    false
}

fn contains_status(v: &Vec<PlayerStatus>, x: PlayerStatus) -> (b: bool)
    ensures
        b == v@.contains(x),
{
    let mut i: usize = 0;
    while i < v.len()
        invariant
            0 <= i <= v@.len(),
            forall|j: int| 0 <= j < i ==> v@[j] != x,
        decreases v@.len() - i,
    {
        if v[i] == x {
            return true;
        }
        i += 1;
    }
    false
}

fn moves_for(path: &Vec<u32>, k: usize) -> (r: Vec<GameAction>)
    requires
        k <= path@.len(),
    ensures
        r@ == moves_along(path@.take(k as int)),
{
    let mut r: Vec<GameAction> = Vec::new();
    let mut i: usize = 0;
    while i < k
        invariant
            k <= path@.len(),
            0 <= i <= k,
            r@ == moves_along(path@.take(i as int)),
        decreases k - i,
    {
        r.push(GameAction::Move { to_room: path[i] });
        i += 1;
        proof {
            assert(r@ =~= moves_along(path@.take(i as int)));
        }
    }
    r
}

fn text_with(prefix: &str, name: &String) -> (r: String)
    ensures
        r@ == prefix@ + name@,
{
    let mut s = String::from_str(prefix);
    s.append(name.as_str());
    s
}

fn reach_task(
    pid: &str,
    path: Option<&Vec<u32>>,
    ap: i32,
    extra: i32,
    finish: GameAction,
    full: String,
    partial: Option<String>,
) -> (r: Option<PlayerTask>)
    requires
        0 <= extra <= 2,
        path is Some ==> path->0@.len() <= 1000000,
    ensures
        match r {
            Some(t) => seq![t@],
            None => Seq::<TaskView>::empty(),
        } == reach_tasks(
            pid@,
            match path {
                Some(p) => Some(p@),
                None => None,
            },
            ap as int,
            extra as int,
            finish,
            full@,
            match partial {
                Some(d) => Some(d@),
                None => None,
            },
        ),
{
    match path {
        None => None,
        Some(p) => {
            let len = p.len();
            if (len as i64) + (extra as i64) <= (ap as i64) {
                let mut actions = moves_for(p, len);
                assert(p@.take(len as int) =~= p@);
                actions.push(finish);
                Some(
                    PlayerTask {
                        player_id: pid.to_owned(),
                        description: full,
                        actions,
                        cost: len as i32 + extra,
                    },
                )
            } else {
                match partial {
                    None => None,
                    Some(d) => {
                        let k: usize = if ap <= 0 {
                            0
                        } else if (ap as usize) < len {
                            ap as usize
                        } else {
                            len
                        };
                        if k > 0 {
                            let actions = moves_for(p, k);
                            Some(
                                PlayerTask {
                                    player_id: pid.to_owned(),
                                    description: d,
                                    actions,
                                    cost: k as i32,
                                },
                            )
                        } else {
                            None
                        }
                    },
                }
            }
        },
    }
}

fn push_opt(tasks: &mut Vec<PlayerTask>, t: Option<PlayerTask>)
    ensures
        tasks_view(final(tasks)@) == tasks_view(old(tasks)@) + match t {
            Some(x) => seq![x@],
            None => Seq::<TaskView>::empty(),
        },
{
    let ghost before = tasks@;
    match t {
        Some(x) => {
            tasks.push(x);
            assert(tasks_view(tasks@) =~= tasks_view(before) + seq![x@]);
        },
        None => {
            assert(tasks_view(tasks@) =~= tasks_view(before) + Seq::<TaskView>::empty());
        },
    }
}

fn path_for<'a>(t: &'a Vec<(u32, Vec<u32>)>, r: u32) -> (res: Option<&'a Vec<u32>>)
    ensures
        match path_to(t@, r) {
            Some(p) => res is Some && res->0@ == p && exists|i: int|
                0 <= i < t@.len() && t@[i].1 == *res->0,
            None => res is None,
        },
{
    match lookup_path(t, r) {
        Some(i) => Some(&t[i].1),
        None => None,
    }
}

fn push_hazard_tasks(
    tasks: &mut Vec<PlayerTask>,
    pid: &str,
    rooms: &Vec<Room>,
    t: &Vec<(u32, Vec<u32>)>,
    ap: i32,
    h: HazardType,
)
    requires
        paths_bounded(t@),
    ensures
        tasks_view(final(tasks)@) == tasks_view(old(tasks)@) + hazard_tasks(
            pid@,
            rooms@,
            t@,
            ap as int,
            h,
        ),
{
    let ghost before = tasks_view(tasks@);
    let mut i: usize = 0;
    proof {
        assert(rooms@.take(0) =~= Seq::<Room>::empty());
        assert(before + Seq::<TaskView>::empty() =~= before);
    }
    while i < rooms.len()
        invariant
            paths_bounded(t@),
            0 <= i <= rooms@.len(),
            tasks_view(tasks@) == before + hazard_tasks(
                pid@,
                rooms@.take(i as int),
                t@,
                ap as int,
                h,
            ),
        decreases rooms@.len() - i,
    {
        let room = &rooms[i];
        let ghost mid = tasks_view(tasks@);
        proof {
            assert(rooms@.take(i + 1).drop_last() =~= rooms@.take(i as int));
            assert(rooms@.take(i + 1).last() == *room);
        }
        if contains_hazard(&room.hazards, h) {
            let path = path_for(t, room.id);
            let task = if h == HazardType::Fire {
                reach_task(
                    pid,
                    path,
                    ap,
                    1,
                    GameAction::Extinguish,
                    text_with("Extinguish in ", &room.name),
                    Some(text_with("Move towards Fire in ", &room.name)),
                )
            } else {
                reach_task(
                    pid,
                    path,
                    ap,
                    1,
                    GameAction::Repair,
                    text_with("Repair in ", &room.name),
                    Some(text_with("Move towards Water in ", &room.name)),
                )
            };
            push_opt(tasks, task);
        } else {
            assert(mid + Seq::<TaskView>::empty() =~= mid);
        }
        i += 1;
        proof {
            assert(tasks_view(tasks@) =~= before + hazard_tasks(
                pid@,
                rooms@.take(i as int),
                t@,
                ap as int,
                h,
            ));
        }
    }
    proof {
        assert(rooms@.take(i as int) =~= rooms@);
    }
}

fn find_room(rooms: &Vec<Room>, id: u32) -> (res: Option<usize>)
    ensures
        match room_of(rooms@, id) {
            Some(r) => res is Some && res->0 < rooms@.len() && rooms@[res->0 as int] == r,
            None => res is None,
        },
{
    let mut i: usize = 0;
    assert(rooms@.skip(0) =~= rooms@);
    while i < rooms.len()
        invariant
            0 <= i <= rooms@.len(),
            room_of(rooms@, id) == room_of(rooms@.skip(i as int), id),
        decreases rooms@.len() - i,
    {
        proof {
            assert(rooms@.skip(i as int).drop_first() =~= rooms@.skip(i + 1));
        }
        if rooms[i].id == id {
            return Some(i);
        }
        i += 1;
    }
    None
}

fn find_player(players: &Vec<Player>, id: &str) -> (res: Option<usize>)
    ensures
        match player_of(players@, id@) {
            Some(p) => res is Some && res->0 < players@.len() && players@[res->0 as int] == p,
            None => res is None,
        },
{
    let mut i: usize = 0;
    assert(players@.skip(0) =~= players@);
    while i < players.len()
        invariant
            0 <= i <= players@.len(),
            player_of(players@, id@) == player_of(players@.skip(i as int), id@),
        decreases players@.len() - i,
    {
        proof {
            assert(players@.skip(i as int).drop_first() =~= players@.skip(i + 1));
        }
        if text_equal(players[i].id.as_str(), id) {
            return Some(i);
        }
        i += 1;
    }
    None
}

fn push_revive_tasks(tasks: &mut Vec<PlayerTask>, pid: &str, players: &Vec<Player>, start: u32, ap: i32)
    ensures
        tasks_view(final(tasks)@) == tasks_view(old(tasks)@) + revive_tasks(
            pid@,
            players@,
            start,
            ap as int,
        ),
{
    let ghost before = tasks_view(tasks@);
    let mut i: usize = 0;
    proof {
        assert(players@.take(0) =~= Seq::<Player>::empty());
        assert(before + Seq::<TaskView>::empty() =~= before);
    }
    while i < players.len()
        invariant
            0 <= i <= players@.len(),
            tasks_view(tasks@) == before + revive_tasks(
                pid@,
                players@.take(i as int),
                start,
                ap as int,
            ),
        decreases players@.len() - i,
    {
        let other = &players[i];
        let ghost mid = tasks_view(tasks@);
        proof {
            assert(players@.take(i + 1).drop_last() =~= players@.take(i as int));
            assert(players@.take(i + 1).last() == *other);
        }
        if other.room_id == start && contains_status(&other.status, PlayerStatus::Fainted) && ap
            >= 1 {
            let mut actions: Vec<GameAction> = Vec::new();
            actions.push(GameAction::Revive { target_player: other.id.clone() });
            let task = PlayerTask {
                player_id: pid.to_owned(),
                description: text_with("Revive ", &other.name),
                actions,
                cost: 1,
            };
            proof {
                assert(task@.actions =~= seq![GameAction::Revive { target_player: other.id }]);
            }
            push_opt(tasks, Some(task));
        } else {
            assert(mid + Seq::<TaskView>::empty() =~= mid);
        }
        i += 1;
        proof {
            assert(tasks_view(tasks@) =~= before + revive_tasks(
                pid@,
                players@.take(i as int),
                start,
                ap as int,
            ));
        }
    }
    proof {
        assert(players@.take(i as int) =~= players@);
    }
}

/// The macro tasks open to player `player_id` in `state` (see [`tasks_spec`]).
///
/// `paths` gives, for each room the player could head for, the rooms to walk through
/// from the player's room (the game's path finder fills it); a room with no entry is
/// out of reach. `systems` names the rooms of the kitchen, cannons and engine.
pub fn generate_tasks(
    state: &GameState,
    player_id: &str,
    paths: &Vec<(u32, Vec<u32>)>,
    systems: &SystemRooms,
) -> (r: Vec<PlayerTask>)
    requires
        player_of(state.players@, player_id@) is Some,
        paths_bounded(paths@),
    ensures
        tasks_view(r@) == tasks_spec(
            *state,
            player_id@,
            player_of(state.players@, player_id@)->0,
            paths@,
            *systems,
        ),
{
    let pi = match find_player(&state.players, player_id) {
        Some(i) => i,
        None => {
            proof {
                assert(false);
            }
            0
        },
    };
    let player = &state.players[pi];
    let start = player.room_id;
    let ap = player.ap;
    let mut tasks: Vec<PlayerTask> = Vec::new();
    let mut pass_actions: Vec<GameAction> = Vec::new();
    pass_actions.push(GameAction::Pass);
    let pass = PlayerTask {
        player_id: player_id.to_owned(),
        description: String::from_str("Pass"),
        actions: pass_actions,
        cost: 0,
    };
    proof {
        assert(pass@.actions =~= seq![GameAction::Pass]);
    }
    push_opt(&mut tasks, Some(pass));
    proof {
        assert(tasks_view(Seq::<PlayerTask>::empty()) =~= Seq::<TaskView>::empty());
    }
    push_hazard_tasks(&mut tasks, player_id, &state.rooms, paths, ap, HazardType::Fire);
    push_hazard_tasks(&mut tasks, player_id, &state.rooms, paths, ap, HazardType::Water);
    let kitchen = reach_task(
        player_id,
        path_for(paths, systems.kitchen),
        ap,
        1,
        GameAction::Bake,
        String::from_str("Bake"),
        Some(String::from_str("Move towards Kitchen")),
    );
    push_opt(&mut tasks, kitchen);
    let ghost after_bake = tasks_view(tasks@);
    if contains_item(&player.inventory, ItemType::Peppernut) {
        let shoot = reach_task(
            player_id,
            path_for(paths, systems.cannons),
            ap,
            1,
            GameAction::Shoot,
            String::from_str("Shoot"),
            Some(String::from_str("Move towards Cannons")),
        );
        push_opt(&mut tasks, shoot);
    } else {
        assert(after_bake + Seq::<TaskView>::empty() =~= after_bake);
    }
    let ghost after_shoot = tasks_view(tasks@);
    let here = find_room(&state.rooms, start);
    match here {
        Some(ri) => {
            if contains_item(&state.rooms[ri].items, ItemType::Peppernut) && ap >= 1 {
                let mut pick: Vec<GameAction> = Vec::new();
                pick.push(GameAction::PickUp { item_type: ItemType::Peppernut });
                let task = PlayerTask {
                    player_id: player_id.to_owned(),
                    description: String::from_str("Pickup Ammo"),
                    actions: pick,
                    cost: 1,
                };
                proof {
                    assert(task@.actions =~= seq![
                        GameAction::PickUp { item_type: ItemType::Peppernut },
                    ]);
                }
                push_opt(&mut tasks, Some(task));
            } else {
                assert(after_shoot + Seq::<TaskView>::empty() =~= after_shoot);
            }
        },
        None => {
            assert(after_shoot + Seq::<TaskView>::empty() =~= after_shoot);
        },
    }
    let ghost after_pick = tasks_view(tasks@);
    if here.is_some() {
        push_revive_tasks(&mut tasks, player_id, &state.players, start, ap);
    } else {
        assert(after_pick + Seq::<TaskView>::empty() =~= after_pick);
    }
    let engine = reach_task(
        player_id,
        path_for(paths, systems.engine),
        ap,
        2,
        GameAction::EvasiveManeuvers,
        String::from_str("Evasion"),
        None,
    );
    push_opt(&mut tasks, engine);
    tasks
}

} // verus!

verus! {

/// The AP a player can spend this round.
pub open spec fn spendable(ap: int) -> int {
    if ap > 0 {
        ap
    } else {
        0
    }
}

proof fn lemma_reach_costs(
    pid: Seq<char>,
    path: Option<Seq<u32>>,
    ap: int,
    extra: int,
    finish: GameAction,
    full: Seq<char>,
    partial: Option<Seq<char>>,
)
    requires
        extra >= 0,
    ensures
        forall|i: int|
            0 <= i < reach_tasks(pid, path, ap, extra, finish, full, partial).len() ==> 0 <= (
            #[trigger] reach_tasks(pid, path, ap, extra, finish, full, partial)[i]).cost
                <= spendable(ap),
        reach_tasks(pid, path, ap, extra, finish, full, partial).len() <= 1,
{
}

proof fn lemma_hazard_costs(pid: Seq<char>, rs: Seq<Room>, t: Seq<(u32, Vec<u32>)>, ap: int, h: HazardType)
    ensures
        forall|i: int|
            0 <= i < hazard_tasks(pid, rs, t, ap, h).len() ==> 0 <= (#[trigger] hazard_tasks(
                pid,
                rs,
                t,
                ap,
                h,
            )[i]).cost <= spendable(ap),
    decreases rs.len(),
{
    if rs.len() > 0 {
        let r = rs.last();
        lemma_hazard_costs(pid, rs.drop_last(), t, ap, h);
        lemma_reach_costs(
            pid,
            path_to(t, r.id),
            ap,
            1,
            GameAction::Extinguish,
            "Extinguish in "@ + r.name@,
            Some("Move towards Fire in "@ + r.name@),
        );
        lemma_reach_costs(
            pid,
            path_to(t, r.id),
            ap,
            1,
            GameAction::Repair,
            "Repair in "@ + r.name@,
            Some("Move towards Water in "@ + r.name@),
        );
        let prev = hazard_tasks(pid, rs.drop_last(), t, ap, h);
        let all = hazard_tasks(pid, rs, t, ap, h);
        let add = all.skip(prev.len() as int);
        assert(all =~= prev + add);
        assert forall|i: int| 0 <= i < all.len() implies 0 <= (#[trigger] all[i]).cost <= spendable(ap) by {
            if i < prev.len() {
                assert(all[i] == prev[i]);
            } else {
                assert(all[i] == add[i - prev.len()]);
            }
        }
    }
}

/// The action that removes hazard `h` from the room a player stands in: a fire is
/// extinguished, water is repaired.
pub open spec fn clearing_action(h: HazardType) -> GameAction {
    match h {
        HazardType::Fire => GameAction::Extinguish,
        HazardType::Water => GameAction::Repair,
    }
}

/// A task that walks, then (where it reaches the spot) does its one finishing act.
pub open spec fn walks_then(a: Seq<GameAction>, finish: GameAction) -> bool {
    &&& a.len() >= 1
    &&& forall|j: int| 0 <= j < a.len() - 1 ==> (#[trigger] a[j]) is Move
    &&& (a.last() is Move || a.last() == finish)
}

proof fn lemma_reach_shape(
    pid: Seq<char>,
    path: Option<Seq<u32>>,
    ap: int,
    extra: int,
    finish: GameAction,
    full: Seq<char>,
    partial: Option<Seq<char>>,
)
    ensures
        forall|i: int|
            0 <= i < reach_tasks(pid, path, ap, extra, finish, full, partial).len() ==> walks_then(
                (#[trigger] reach_tasks(pid, path, ap, extra, finish, full, partial)[i]).actions,
                finish,
            ),
{
    match path {
        None => {},
        Some(p) => {
            let all = reach_tasks(pid, path, ap, extra, finish, full, partial);
            if all.len() > 0 {
                let a = all[0].actions;
                if p.len() + extra <= ap {
                    assert(a =~= moves_along(p).push(finish));
                    assert forall|j: int| 0 <= j < a.len() - 1 implies (#[trigger] a[j]) is Move by {
                        assert(a[j] == moves_along(p)[j]);
                    }
                } else {
                    assert forall|j: int| 0 <= j < a.len() implies (#[trigger] a[j]) is Move by {}
                    assert(a.last() == a[a.len() - 1]);
                }
            }
        },
    }
}

/// Every task made for a hazard either only walks towards its room or walks there and
/// ends with the act that removes that very hazard: fires are extinguished, water is
/// repaired, and nothing else is done on the way.
pub proof fn lemma_hazard_task_finish(pid: Seq<char>, rs: Seq<Room>, t: Seq<(u32, Vec<u32>)>, ap: int, h: HazardType)
    ensures
        forall|i: int|
            0 <= i < hazard_tasks(pid, rs, t, ap, h).len() ==> walks_then(
                (#[trigger] hazard_tasks(pid, rs, t, ap, h)[i]).actions,
                clearing_action(h),
            ),
    decreases rs.len(),
{
    if rs.len() > 0 {
        let r = rs.last();
        lemma_hazard_task_finish(pid, rs.drop_last(), t, ap, h);
        lemma_reach_shape(
            pid,
            path_to(t, r.id),
            ap,
            1,
            GameAction::Extinguish,
            "Extinguish in "@ + r.name@,
            Some("Move towards Fire in "@ + r.name@),
        );
        lemma_reach_shape(
            pid,
            path_to(t, r.id),
            ap,
            1,
            GameAction::Repair,
            "Repair in "@ + r.name@,
            Some("Move towards Water in "@ + r.name@),
        );
        let prev = hazard_tasks(pid, rs.drop_last(), t, ap, h);
        let all = hazard_tasks(pid, rs, t, ap, h);
        let add = all.skip(prev.len() as int);
        assert(all =~= prev + add);
        assert forall|i: int| 0 <= i < all.len() implies walks_then(
            (#[trigger] all[i]).actions,
            clearing_action(h),
        ) by {
            if i < prev.len() {
                assert(all[i] == prev[i]);
            } else {
                assert(all[i] == add[i - prev.len()]);
            }
        }
    }
}

proof fn lemma_revive_costs(pid: Seq<char>, ps: Seq<Player>, start: u32, ap: int)
    ensures
        forall|i: int|
            0 <= i < revive_tasks(pid, ps, start, ap).len() ==> (#[trigger] revive_tasks(
                pid,
                ps,
                start,
                ap,
            )[i]).cost == 1 && ap >= 1,
    decreases ps.len(),
{
    if ps.len() > 0 {
        lemma_revive_costs(pid, ps.drop_last(), start, ap);
        let prev = revive_tasks(pid, ps.drop_last(), start, ap);
        let all = revive_tasks(pid, ps, start, ap);
        let add = all.skip(prev.len() as int);
        assert(all =~= prev + add);
        assert forall|i: int| 0 <= i < all.len() implies (#[trigger] all[i]).cost == 1 && ap >= 1 by {
            if i < prev.len() {
                assert(all[i] == prev[i]);
            } else {
                assert(all[i] == add[i - prev.len()]);
            }
        }
    }
}

/// Passing always comes first and costs nothing, and no task costs more AP than the
/// player has to spend.
#[verifier::rlimit(50)]
#[verifier::spinoff_prover]
pub proof fn lemma_task_costs(
    s: GameState,
    pid: Seq<char>,
    p: Player,
    t: Seq<(u32, Vec<u32>)>,
    sys: SystemRooms,
)
    ensures
        tasks_spec(s, pid, p, t, sys).len() >= 1,
        tasks_spec(s, pid, p, t, sys)[0].actions == seq![GameAction::Pass],
        tasks_spec(s, pid, p, t, sys)[0].cost == 0,
        forall|i: int|
            0 <= i < tasks_spec(s, pid, p, t, sys).len() ==> 0 <= (#[trigger] tasks_spec(
                s,
                pid,
                p,
                t,
                sys,
            )[i]).cost <= spendable(p.ap as int),
{
    let ap = p.ap as int;
    lemma_hazard_costs(pid, s.rooms@, t, ap, HazardType::Fire);
    lemma_hazard_costs(pid, s.rooms@, t, ap, HazardType::Water);
    lemma_revive_costs(pid, s.players@, p.room_id, ap);
    lemma_reach_costs(pid, path_to(t, sys.kitchen), ap, 1, GameAction::Bake, "Bake"@, Some("Move towards Kitchen"@));
    lemma_reach_costs(pid, path_to(t, sys.cannons), ap, 1, GameAction::Shoot, "Shoot"@, Some("Move towards Cannons"@));
    lemma_reach_costs(pid, path_to(t, sys.engine), ap, 2, GameAction::EvasiveManeuvers, "Evasion"@, None);
    let all = tasks_spec(s, pid, p, t, sys);
    assert forall|i: int| 0 <= i < all.len() implies 0 <= (#[trigger] all[i]).cost <= spendable(ap) by {
        let pass = seq![
            TaskView {
                player_id: pid,
                description: "Pass"@,
                actions: seq![GameAction::Pass],
                cost: 0,
            },
        ];
        let fire = hazard_tasks(pid, s.rooms@, t, ap, HazardType::Fire);
        let water = hazard_tasks(pid, s.rooms@, t, ap, HazardType::Water);
        let bake = reach_tasks(pid, path_to(t, sys.kitchen), ap, 1, GameAction::Bake, "Bake"@, Some("Move towards Kitchen"@));
        let shoot = if p.inventory@.contains(ItemType::Peppernut) {
            reach_tasks(pid, path_to(t, sys.cannons), ap, 1, GameAction::Shoot, "Shoot"@, Some("Move towards Cannons"@))
        } else {
            Seq::empty()
        };
        let here = room_of(s.rooms@, p.room_id);
        let pick: Seq<TaskView> = match here {
            Some(room) => if room.items@.contains(ItemType::Peppernut) && ap >= 1 {
                seq![
                    TaskView {
                        player_id: pid,
                        description: "Pickup Ammo"@,
                        actions: seq![GameAction::PickUp { item_type: ItemType::Peppernut }],
                        cost: 1,
                    },
                ]
            } else {
                Seq::empty()
            },
            None => Seq::empty(),
        };
        let revive = if here is Some {
            revive_tasks(pid, s.players@, p.room_id, ap)
        } else {
            Seq::empty()
        };
        let engine = reach_tasks(pid, path_to(t, sys.engine), ap, 2, GameAction::EvasiveManeuvers, "Evasion"@, None);
        assert(all == pass + fire + water + bake + shoot + pick + revive + engine);
        let n1 = pass.len();
        let n2 = n1 + fire.len();
        let n3 = n2 + water.len();
        let n4 = n3 + bake.len();
        let n5 = n4 + shoot.len();
        let n6 = n5 + pick.len();
        let n7 = n6 + revive.len();
        if i < n1 {
        } else if i < n2 {
            assert(all[i] == fire[i - n1]);
        } else if i < n3 {
            assert(all[i] == water[i - n2]);
        } else if i < n4 {
            assert(all[i] == bake[i - n3]);
        } else if i < n5 {
            assert(all[i] == shoot[i - n4]);
        } else if i < n6 {
            assert(all[i] == pick[i - n5]);
        } else if i < n7 {
            assert(all[i] == revive[i - n6]);
        } else {
            assert(all[i] == engine[i - n7]);
        }
    }
}

} // verus!
