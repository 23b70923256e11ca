use sint_solver::config::{BeamConfig, CommonSearchConfig, RHEAConfigParams};
use sint_solver::model::{
    Attack, Enemy, EventCard, GameAction, GamePhase, GameState, HazardType, ItemType, Player, Room,
};
use sint_solver::replay::{append_int, count_hazards, format_results};
use sint_solver::trajectory::{format_planning_context, items_text, phase_text, TrajectoryWriter};
use sint_solver::tui::{get_player_emoji, join_strings, ActionTicker};

#[test]
fn search_defaults() {
    let c = CommonSearchConfig::default();
    assert_eq!((c.players, c.seed, c.steps, c.time_limit, c.verbose), (6, 12345, 3000, 300, false));
    assert_eq!(BeamConfig::default().beam_width, 300);
    let r = RHEAConfigParams::default();
    assert_eq!((r.rhea_horizon, r.rhea_generations, r.rhea_population), (30, 10, 20));
}

#[test]
fn player_emojis() {
    assert_eq!(get_player_emoji("P1"), "👺");
    assert_eq!(get_player_emoji("P4"), "😺");
    assert_eq!(get_player_emoji("P6"), "👻");
    assert_eq!(get_player_emoji("P7"), "👤");
    assert_eq!(get_player_emoji(""), "👤");
}

#[test]
fn ticker_lists_actions_one_per_line() {
    let history = vec!["P1: Bake".to_string(), "P2: Pass".to_string()];
    let t = ActionTicker { history: &history, label: "(seed 7)" };
    assert_eq!(t.ticker_text(), "P1: Bake\nP2: Pass");
    assert_eq!(t.title(), "Action Ticker (seed 7)");
    assert_eq!(join_strings(&[], ", "), "");
    assert_eq!(join_strings(&["a".to_string()], ", "), "a");
}

#[test]
fn round_results_text() {
    assert_eq!(format_results(20, 17, 2, 5), "[RESULTS]\n  ! Hull Damage: 20 -> 17\n  ! Hazards Increased: 2 -> 5\n");
    assert_eq!(format_results(20, 20, 5, 2), "[RESULTS]\n  - Hull Stable (20)\n  + Hazards Controlled: 5 -> 2\n");
    assert_eq!(format_results(3, 4, 1, 1), "[RESULTS]\n  - Hull Stable (4)\n");
    assert_eq!(format_results(0, -3, 0, 0), "[RESULTS]\n  ! Hull Damage: 0 -> -3\n");
    let mut s = String::from("x=");
    append_int(&mut s, i64::MIN);
    assert_eq!(s, format!("x={}", i64::MIN));
    let mut s = String::new();
    append_int(&mut s, 1234567890);
    assert_eq!(s, "1234567890");
}

fn player(id: &str, room: u32, inventory: Vec<ItemType>) -> Player {
    Player {
        id: id.to_string(),
        name: id.to_string(),
        room_id: room,
        hp: 3,
        ap: 2,
        is_ready: false,
        inventory,
        status: vec![],
    }
}

fn room(id: u32, hazards: Vec<HazardType>) -> Room {
    Room { id, name: format!("R{}", id), hazards, items: vec![] }
}

fn state() -> GameState {
    GameState {
        phase: GamePhase::TacticalPlanning,
        turn_count: 1,
        hull_integrity: 20,
        boss_level: 0,
        enemy: Enemy {
            name: "The Petty Thief".to_string(),
            hp: 5,
            max_hp: 5,
            next_attack: Some(Attack { target_room: 3, effect: "Fireball".to_string() }),
        },
        players: vec![player("P1", 2, vec![ItemType::Peppernut, ItemType::Mitre]), player("P2", 4, vec![])],
        rooms: vec![
            room(1, vec![]),
            room(3, vec![HazardType::Fire, HazardType::Water, HazardType::Fire]),
            room(5, vec![HazardType::Water]),
        ],
        active_situations: vec!["Fog".to_string(), "Storm".to_string()],
        latest_event: Some(EventCard { title: "Wind".to_string(), description: "It blows.".to_string() }),
    }
}

#[test]
fn planning_context_lists_the_situation() {
    let s = state();
    assert_eq!(count_hazards(&s), 4);
    assert_eq!(
        format_planning_context(&s),
        "[EVENT] Wind - It blows.\n\
         [ACTIVE] Fog, Storm\n\
         [ENEMY] The Petty Thief targets Room 3 with Fireball\n\
         [HAZARDS] Fire: 3 (x2)\n\
         [HAZARDS] Water: 3 (x1), 5 (x1)\n\
         [PLAYERS] P1: R2 [Peppernut, Mitre] | P2: R4\n\
         [STATUS] Hull: 20 | Boss HP: 5 | Total Hazards: 4\n\
         [TEAM] Actions:\n"
    );
    let mut quiet = state();
    quiet.latest_event = None;
    quiet.active_situations = vec![];
    quiet.enemy.next_attack = None;
    quiet.rooms = vec![room(1, vec![])];
    assert_eq!(
        format_planning_context(&quiet),
        "[PLAYERS] P1: R2 [Peppernut, Mitre] | P2: R4\n[STATUS] Hull: 20 | Boss HP: 5 | Total Hazards: 0\n[TEAM] Actions:\n"
    );
    assert_eq!(items_text(&vec![]), "[]");
    assert_eq!(phase_text(GamePhase::EnemyTelegraph), "EnemyTelegraph");
}

#[test]
fn trajectory_reads_round_by_round() {
    let s = state();
    let mut w = TrajectoryWriter::new(&s);
    let opening = format!(
        "\n=== BEST TRAJECTORY FOUND ===\nStart: Hull 20, Boss The Petty Thief, Playersィ 2\n\n--- ROUND 1 ---\n{}",
        format_planning_context(&s)
    );
    assert_eq!(w.buffer, opening);

    let plan = GameAction::Chat { message: "[MACRO] Bake [MACRO] twice".to_string() };
    w.announce("P1", &plan, "unused");
    w.announce("P1", &GameAction::Chat { message: "hello".to_string() }, "unused");
    w.announce("P1", &GameAction::Bake, "Bake");
    w.announce("P2", &GameAction::Pass, "Pass");
    w.announce("P2", &GameAction::VoteReady { ready: true }, "VoteReady { ready: true }");
    w.failed("P2", "Shoot", "NotEnoughAP");
    let mut after = state();
    after.turn_count = 2;
    after.hull_integrity = 18;
    after.phase = GamePhase::MorningReport;
    after.enemy.name = "Big Boss".to_string();
    w.applied(&after);
    assert_eq!(w.rounds.len(), 1);
    let stars = "*".repeat(50);
    let expected_round = format!(
        "{}\n  P1 plans: Bake twice\n    -> Bake (P1)\n  P2 passes.\n  ERROR REPLAYING: P2 failed to Shoot: NotEnoughAP\n\n{}\n⚔️  BOSS DEFEATED: The Petty Thief  ⚔️\n💀  NEW CHALLENGER: Big Boss  💀\n{}\n\n[RESULTS]\n  ! Hull Damage: 20 -> 18\n",
        opening, stars, stars
    );
    assert_eq!(w.rounds[0], expected_round);
    assert_eq!(w.buffer, "\n--- ROUND 2 ---\n[EVENT] Wind - It blows.\n");

    let mut lost = after;
    lost.phase = GamePhase::GameOver;
    w.applied(&lost);
    assert_eq!(w.rounds.len(), 1);
    let rounds = w.finish();
    assert_eq!(rounds.len(), 2);
    assert_eq!(
        rounds[1],
        "\n--- ROUND 2 ---\n[EVENT] Wind - It blows.\n\n=== GAME ENDED: GameOver ===\n\n=== LAST PHASE: GameOver ===\n"
    );
}
