use std::sync::Arc;

use rand::SeedableRng;

use sint_solver::beam_step::{
    improves_partial, next_beam, winning_node, BeamRun, NodeInfo, Offer, StepDecision, Visited,
};
use sint_solver::evolution::{mutate_plan, shift_plan};
use sint_solver::model::{Enemy, GameAction, GamePhase, GameState, Player};
use sint_solver::search::{
    active_player, get_valid_actions, DebugContext, DeterministicHasher, ExpansionLog, SearchNode,
    DEBUG_LOG_CAPACITY, SIGNATURE_SEED,
};

fn leaf(parent: Option<Arc<SearchNode<u32, i32>>>, action: Option<(&str, GameAction)>) -> SearchNode<u32, i32> {
    let len = match &parent {
        Some(p) => p.history_len + 1,
        None => 0,
    };
    SearchNode {
        state: 0,
        parent,
        last_action: action.map(|(p, a)| (p.to_string(), a)),
        score: 0,
        signature: 0,
        history_len: len,
    }
}

fn chain() -> SearchNode<u32, i32> {
    let root = Arc::new(leaf(None, None));
    let a = Arc::new(leaf(Some(root), Some(("P1", GameAction::Move { to_room: 2 }))));
    let b = Arc::new(leaf(Some(a), Some(("P2", GameAction::Bake))));
    leaf(Some(b), Some(("P1", GameAction::Pass)))
}

#[test]
fn history_runs_from_root_to_node() {
    let n = chain();
    assert_eq!(
        n.get_history(),
        vec![
            ("P1".to_string(), GameAction::Move { to_room: 2 }),
            ("P2".to_string(), GameAction::Bake),
            ("P1".to_string(), GameAction::Pass),
        ]
    );
    assert_eq!(
        n.get_recent_history(2),
        vec![("P2".to_string(), GameAction::Bake), ("P1".to_string(), GameAction::Pass)]
    );
    assert_eq!(n.get_recent_history(10).len(), 3);
    assert!(n.get_recent_history(0).is_empty());
    assert!(leaf(None, None).get_history().is_empty());
}

fn player(id: &str, ap: i32, ready: bool) -> Player {
    Player {
        id: id.to_string(),
        name: id.to_string(),
        room_id: 0,
        hp: 3,
        ap,
        is_ready: ready,
        inventory: vec![],
        status: vec![],
    }
}

fn state(players: Vec<Player>) -> GameState {
    GameState {
        phase: GamePhase::TacticalPlanning,
        turn_count: 1,
        hull_integrity: 20,
        boss_level: 0,
        enemy: Enemy { name: "Boss".to_string(), hp: 5, max_hp: 5, next_attack: None },
        players,
        rooms: vec![],
        active_situations: vec![],
        latest_event: None,
    }
}

#[test]
fn valid_actions_belong_to_the_next_player_and_skip_driver_actions() {
    let s = state(vec![player("P1", 0, false), player("P2", 2, true), player("P3", 1, false)]);
    assert_eq!(active_player(&s), Some(2));
    let legal = vec![
        GameAction::Move { to_room: 1 },
        GameAction::Chat { message: "hi".to_string() },
        GameAction::VoteReady { ready: true },
        GameAction::Undo { action_id: 3 },
        GameAction::Pass,
    ];
    assert_eq!(
        get_valid_actions(&s, &legal),
        vec![("P3".to_string(), GameAction::Move { to_room: 1 }), ("P3".to_string(), GameAction::Pass)]
    );
    let idle = state(vec![player("P1", 0, false), player("P2", 2, true)]);
    assert_eq!(active_player(&idle), None);
    assert!(get_valid_actions(&idle, &legal).is_empty());
}

fn log_entry(step: usize) -> ExpansionLog {
    ExpansionLog {
        step,
        phase: GamePhase::TacticalPlanning,
        active_player: None,
        ap: 0,
        actions_generated: vec![],
        outcomes: vec![],
    }
}

#[test]
fn debug_log_keeps_the_latest_fifty() {
    let mut ctx = DebugContext::new();
    for i in 0..120 {
        ctx.log(log_entry(i));
        assert!(ctx.logs.len() <= DEBUG_LOG_CAPACITY);
    }
    assert_eq!(ctx.logs.len(), 50);
    assert_eq!(ctx.logs.front().map(|e| e.step), Some(70));
    assert_eq!(ctx.logs.back().map(|e| e.step), Some(119));
    assert!(DebugContext::default().logs.is_empty());
}

#[test]
fn signature_hasher_is_fnv_1a() {
    let mut h = DeterministicHasher::new();
    assert_eq!(h.finish(), SIGNATURE_SEED);
    h.write(b"a");
    assert_eq!(h.finish(), 0xaf63dc4c8601ec8c);
    let mut whole = DeterministicHasher::new();
    whole.write(b"foobar");
    let mut split = DeterministicHasher::new();
    split.write(b"foo");
    split.write(b"");
    split.write(b"bar");
    assert_eq!(whole.finish(), split.finish());
    assert_eq!(whole.finish(), 0x85944171f73967e8);
}

fn offer(signature: u64, total_ap: i32, score: i64) -> Offer {
    Offer { signature, total_ap, score }
}

#[test]
fn beam_keeps_best_unvisited_nodes() {
    let mut visited: Visited = Visited::new();
    visited.insert(7, (3, 100));
    let offers = vec![
        offer(1, 2, 50),
        offer(7, 3, 100), // same AP, not better: dropped
        offer(2, 2, 80),
        offer(1, 2, 60), // same signature, better: replaces the first
        offer(7, 4, 10), // more AP: kept
        offer(3, 1, 80),
    ];
    let beam = next_beam(&offers, &mut visited, 3);
    assert_eq!(beam, vec![2, 5, 3]);
    assert_eq!(visited.get(&1), Some(&(2, 60)));
    assert_eq!(visited.get(&7), Some(&(4, 10)));
    let all = next_beam(&offers, &mut Visited::new(), 10);
    assert_eq!(all, vec![2, 5, 3, 4]);
    assert!(next_beam(&offers, &mut Visited::new(), 0).is_empty());
}

#[test]
fn search_ends_on_the_first_finished_game_if_won() {
    let (tp, won, lost) = (GamePhase::TacticalPlanning, GamePhase::Victory, GamePhase::GameOver);
    assert_eq!(winning_node(&vec![tp, won, lost]), Some(1));
    assert_eq!(winning_node(&vec![tp, lost, won]), None);
    assert_eq!(winning_node(&vec![tp]), None);
    assert!(improves_partial(3, 0, 2, 100));
    assert!(improves_partial(2, 101, 2, 100));
    assert!(!improves_partial(2, 100, 2, 100));
    assert!(!improves_partial(1, 1000, 2, 0));
}

#[test]
fn plans_are_cut_and_shifted() {
    let mut plan = vec![1, 2, 3, 4];
    mutate_plan(&mut plan, 2);
    assert_eq!(plan, vec![1, 2]);
    mutate_plan(&mut plan, 0);
    assert!(plan.is_empty());
    mutate_plan(&mut plan, 5);
    assert!(plan.is_empty());
    let mut seed = vec!["a", "b", "c"];
    shift_plan(&mut seed);
    assert_eq!(seed, vec!["b", "c"]);
    let mut none: Vec<u8> = vec![];
    shift_plan(&mut none);
    assert!(none.is_empty());
}

#[test]
fn random_mutation_always_cuts() {
    let mut rng = rand::rngs::StdRng::seed_from_u64(7);
    for _ in 0..200 {
        let mut plan = vec![1, 2, 3, 4];
        sint_solver::evolution::mutate_at_random(&mut plan, &mut rng);
        assert!(plan.len() < 4);
        assert_eq!(plan[..], [1, 2, 3, 4][..plan.len()]);
    }
    let mut empty: Vec<u8> = vec![];
    sint_solver::evolution::mutate_at_random(&mut empty, &mut rng);
    assert!(empty.is_empty());
}

fn node(signature: u64, total_ap: i32, score: i64, round: u32, phase: GamePhase) -> NodeInfo {
    NodeInfo { signature, total_ap, score, round, phase }
}

#[test]
fn beam_run_expands_then_stops_on_a_win() {
    let tp = GamePhase::TacticalPlanning;
    let mut run = BeamRun::new(node(0, 4, 0, 1, tp), 10, 2);
    let plan = run.begin_step(false);
    assert!(!plan.remember_head);
    assert_eq!(plan.decision, StepDecision::Expand);
    let children = vec![
        node(1, 3, 5, 1, tp),
        node(2, 3, 9, 2, tp),
        node(3, 3, 7, 1, GamePhase::Victory),
    ];
    let kept = run.expanded(&children);
    assert_eq!(kept, vec![1, 2]);
    assert_eq!(run.beam, vec![children[1], children[2]]);
    assert_eq!(run.step, 1);
    let plan = run.begin_step(false);
    assert!(plan.remember_head);
    assert_eq!(run.best, Some(children[1]));
    assert_eq!(plan.decision, StepDecision::Won(1));
    assert_eq!(run.winner, Some(1));
    assert!(run.finished);
    assert!(!run.failed());
}

#[test]
fn beam_run_stops_when_the_beam_dies_or_time_is_up() {
    let tp = GamePhase::TacticalPlanning;
    let mut run = BeamRun::new(node(0, 4, 0, 1, tp), 10, 2);
    assert_eq!(run.begin_step(false).decision, StepDecision::Expand);
    assert!(run.expanded(&vec![]).is_empty());
    let plan = run.begin_step(false);
    assert_eq!(plan.decision, StepDecision::Finish);
    assert!(run.failed());

    let mut timed = BeamRun::new(node(0, 4, 0, 1, tp), 10, 2);
    let plan = timed.begin_step(true);
    assert_eq!(plan.decision, StepDecision::Finish);
    assert!(timed.finished);
    assert!(!timed.failed());

    let mut no_steps = BeamRun::new(node(0, 4, 0, 1, tp), 0, 2);
    assert_eq!(no_steps.begin_step(false).decision, StepDecision::Finish);
}
