use sint_solver::beam_search::{first_victory, macro_plan, select_frontier, vote_plan, StateNode};
use sint_solver::combinatorics::cartesian_product;
use sint_solver::heuristic::evaluate;
use sint_solver::macro_actions::{generate_tasks, PlayerTask, SystemRooms};
use sint_solver::model::{
    Enemy, GameAction, GamePhase, GameState, HazardType, ItemType, Player, PlayerStatus, Room,
};

fn player(id: &str, room: u32, ap: i32) -> Player {
    Player {
        id: id.to_string(),
        name: format!("Name{}", id),
        room_id: room,
        hp: 3,
        ap,
        is_ready: false,
        inventory: vec![],
        status: vec![],
    }
}

fn room(id: u32, name: &str) -> Room {
    Room { id, name: name.to_string(), hazards: vec![], items: vec![] }
}

fn state() -> GameState {
    GameState {
        phase: GamePhase::TacticalPlanning,
        turn_count: 1,
        hull_integrity: 20,
        boss_level: 0,
        enemy: Enemy { name: "Boss".to_string(), hp: 5, max_hp: 5, next_attack: None },
        players: vec![player("P1", 1, 2), player("P2", 2, 2)],
        rooms: vec![room(1, "Hall"), room(2, "Kitchen"), room(3, "Cannons"), room(4, "Engine")],
        active_situations: vec![],
        latest_event: None,
    }
}

#[test]
fn evaluation_weighs_hull_and_outcome() {
    let s = state();
    let paths = vec![None, None];
    let base = evaluate(&s, &paths, 3);
    // boss 0, turn 1 (-50), enemy damage 0, boss hp 5 (-500), hull 20 (+2000), crew 2x3 hp (+60)
    assert_eq!(base, -50 - 500 + 2000 + 60);
    let mut s2 = state();
    s2.hull_integrity = 19;
    assert_eq!(evaluate(&s2, &paths, 3), base - 100);
    let mut won = state();
    won.phase = GamePhase::Victory;
    assert_eq!(evaluate(&won, &paths, 3), base + 100000);
    let mut lost = state();
    lost.phase = GamePhase::GameOver;
    assert_eq!(evaluate(&lost, &paths, 3), -100000);
}

#[test]
fn evaluation_counts_hazards_items_and_fainting() {
    let mut s = state();
    let paths = vec![Some(2), None];
    let base = evaluate(&s, &paths, 3);
    s.rooms[0].hazards = vec![HazardType::Fire, HazardType::Water];
    assert_eq!(evaluate(&s, &paths, 3), base - 40 - 10);
    s.players[0].inventory = vec![ItemType::Peppernut];
    // 20 for the item, (10 - 2) * 5 for being two steps from the cannons
    assert_eq!(evaluate(&s, &paths, 3), base - 50 + 60);
    s.players[1].status = vec![PlayerStatus::Fainted];
    assert_eq!(evaluate(&s, &paths, 3), base - 50 + 60 - 200);
}

fn systems() -> SystemRooms {
    SystemRooms { kitchen: 2, cannons: 3, engine: 4 }
}

#[test]
fn tasks_start_with_pass_and_stay_within_ap() {
    let mut s = state();
    s.rooms[2].hazards = vec![HazardType::Fire];
    let paths = vec![(2u32, vec![2u32]), (3u32, vec![2u32, 3u32]), (4u32, vec![2u32, 3u32, 4u32])];
    let tasks = generate_tasks(&s, "P1", &paths, &systems());
    assert_eq!(tasks[0].description, "Pass");
    assert_eq!(tasks[0].actions, vec![GameAction::Pass]);
    assert_eq!(tasks[0].cost, 0);
    for t in &tasks {
        assert!(t.cost >= 0 && t.cost <= 2);
        assert_eq!(t.player_id, "P1");
    }
    let names: Vec<&str> = tasks.iter().map(|t| t.description.as_str()).collect();
    assert_eq!(names, vec!["Pass", "Move towards Fire in Cannons", "Bake"]);
    assert_eq!(tasks[1].actions, vec![GameAction::Move { to_room: 2 }, GameAction::Move { to_room: 3 }]);
    assert_eq!(tasks[2].actions, vec![GameAction::Move { to_room: 2 }, GameAction::Bake]);
    assert_eq!(tasks[2].cost, 2);
}

#[test]
fn tasks_for_ammunition_and_revival() {
    let mut s = state();
    s.players[1].room_id = 1;
    s.players[1].status = vec![PlayerStatus::Fainted];
    s.rooms[0].items = vec![ItemType::Peppernut];
    s.players[0].inventory = vec![ItemType::Peppernut];
    s.players[0].ap = 3;
    let paths = vec![(3u32, vec![2u32, 3u32])];
    let tasks = generate_tasks(&s, "P1", &paths, &systems());
    let names: Vec<&str> = tasks.iter().map(|t| t.description.as_str()).collect();
    assert_eq!(names, vec!["Pass", "Shoot", "Pickup Ammo", "Revive NameP2"]);
    assert_eq!(tasks[1].cost, 3);
    assert_eq!(tasks[3].actions, vec![GameAction::Revive { target_player: "P2".to_string() }]);
}

fn task(pid: &str, d: &str, cost: i32) -> PlayerTask {
    PlayerTask { player_id: pid.to_string(), description: d.to_string(), actions: vec![GameAction::Pass], cost }
}

#[test]
fn cartesian_product_enumerates_every_combination() {
    let lists = vec![vec![task("P1", "a", 0), task("P1", "b", 1)], vec![task("P2", "x", 0), task("P2", "y", 1), task("P2", "z", 2)]];
    let combos = cartesian_product(&lists);
    assert_eq!(combos.len(), 6);
    let named: Vec<String> = combos
        .iter()
        .map(|c| c.iter().map(|t| t.description.clone()).collect::<Vec<_>>().join(""))
        .collect();
    let mut sorted = named.clone();
    sorted.sort();
    assert_eq!(sorted, vec!["ax", "ay", "az", "bx", "by", "bz"]);
    let empty: Vec<Vec<PlayerTask>> = vec![vec![task("P1", "a", 0)], vec![]];
    assert_eq!(cartesian_product(&empty).len(), 0);
}

fn node(score: i32, phase: GamePhase) -> StateNode {
    let mut s = state();
    s.phase = phase;
    StateNode { state: s, path: vec![], score, depth: 0 }
}

#[test]
fn frontier_keeps_the_best_living_nodes() {
    let candidates = vec![
        node(5, GamePhase::TacticalPlanning),
        node(9, GamePhase::GameOver),
        node(7, GamePhase::TacticalPlanning),
        node(5, GamePhase::Victory),
        node(1, GamePhase::TacticalPlanning),
    ];
    let f = select_frontier(candidates, 3);
    let scores: Vec<i32> = f.iter().map(|n| n.score).collect();
    assert_eq!(scores, vec![7, 5, 5]);
    assert_eq!(f[1].state.phase, GamePhase::TacticalPlanning);
    assert_eq!(f[2].state.phase, GamePhase::Victory);
    assert_eq!(first_victory(&f), Some(2));
    assert_eq!(select_frontier(vec![node(3, GamePhase::GameOver)], 4).len(), 0);
}

#[test]
fn plans_log_macros_and_vote_at_the_end() {
    let ids = vec!["P1".to_string(), "P2".to_string()];
    let votes = vote_plan(&ids);
    assert_eq!(votes.len(), 2);
    assert_eq!(votes[1].player, "P2");
    assert_eq!(votes[1].action, GameAction::VoteReady { ready: true });
    let mut t = task("P1", "Bake", 2);
    t.actions = vec![GameAction::Move { to_room: 2 }, GameAction::Bake];
    let plan = macro_plan(&ids, &vec![t, task("P2", "Pass", 0)]);
    let steps: Vec<(String, GameAction, bool)> =
        plan.iter().map(|p| (p.player.clone(), p.action.clone(), p.apply)).collect();
    assert_eq!(
        steps,
        vec![
            ("P1".to_string(), GameAction::Chat { message: "[MACRO] Bake".to_string() }, false),
            ("P1".to_string(), GameAction::Move { to_room: 2 }, true),
            ("P1".to_string(), GameAction::Bake, true),
            ("P2".to_string(), GameAction::Chat { message: "[MACRO] Pass".to_string() }, false),
            ("P2".to_string(), GameAction::Pass, true),
            ("P1".to_string(), GameAction::VoteReady { ready: true }, true),
            ("P2".to_string(), GameAction::VoteReady { ready: true }, true),
        ]
    );
}
