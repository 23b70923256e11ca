use sint_solver::report::{
    failure_summary, lone_crew_with_ap, CrewEntry, FailureReport, RoomEntry, SituationEntry,
};
use sint_solver::model::{Enemy, GameAction, GamePhase, GameState, HazardType, ItemType, Player, Room};
use sint_solver::verification::{
    get_hazard_emoji, get_item_emoji, hazards_emoji_text, items_emoji_text, parse_game_action,
    parse_solution_text, try_parse_game_action,
};

#[test]
fn test_parse_game_action() {
    assert_eq!(parse_game_action("Move 5"), GameAction::Move { to_room: 5 });
    assert_eq!(parse_game_action("Bake"), GameAction::Bake);
    assert_eq!(parse_game_action("Shoot"), GameAction::Shoot);
    assert_eq!(
        parse_game_action("Throw P1 0"),
        GameAction::Throw {
            target_player: "P1".to_string(),
            item_index: 0
        }
    );
    assert_eq!(parse_game_action("Extinguish"), GameAction::Extinguish);
    assert_eq!(parse_game_action("Repair"), GameAction::Repair);
    assert_eq!(
        parse_game_action("PickUp Peppernut"),
        GameAction::PickUp {
            item_type: ItemType::Peppernut
        }
    );
    assert_eq!(
        parse_game_action("PickUp Extinguisher"),
        GameAction::PickUp {
            item_type: ItemType::Extinguisher
        }
    );
    assert_eq!(
        parse_game_action("Drop 1"),
        GameAction::Drop { item_index: 1 }
    );
    assert_eq!(parse_game_action("Pass"), GameAction::Pass);
    assert_eq!(
        parse_game_action("Ready"),
        GameAction::VoteReady { ready: true }
    );
    assert_eq!(
        parse_game_action("VoteReady"),
        GameAction::VoteReady { ready: true }
    );
    assert_eq!(parse_game_action("RaiseShields"), GameAction::RaiseShields);
    assert_eq!(
        parse_game_action("EvasiveManeuvers"),
        GameAction::EvasiveManeuvers
    );
    assert_eq!(parse_game_action("Lookout"), GameAction::Lookout);
    assert_eq!(parse_game_action("Interact"), GameAction::Interact);
    assert_eq!(
        parse_game_action("Revive P2"),
        GameAction::Revive {
            target_player: "P2".to_string()
        }
    );
    assert_eq!(
        parse_game_action("FirstAid P3"),
        GameAction::FirstAid {
            target_player: "P3".to_string()
        }
    );
    assert_eq!(
        parse_game_action("Chat Hello World"),
        GameAction::Chat {
            message: "Hello World".to_string()
        }
    );
}

#[test]
fn parse_ignores_surrounding_whitespace() {
    assert_eq!(parse_game_action("   Move 7  "), GameAction::Move { to_room: 7 });
    assert_eq!(parse_game_action("\tBake\n"), GameAction::Bake);
}

#[test]
fn unknown_and_incomplete_commands_are_refused() {
    assert_eq!(try_parse_game_action("Dance"), None);
    assert_eq!(try_parse_game_action("Drop"), None);
    assert_eq!(try_parse_game_action("Move north"), None);
    assert_eq!(try_parse_game_action("Revive"), None);
    assert_eq!(
        try_parse_game_action("PickUp Banana"),
        Some(GameAction::PickUp { item_type: ItemType::Peppernut })
    );
    assert_eq!(
        try_parse_game_action("PickUp"),
        Some(GameAction::PickUp { item_type: ItemType::Peppernut })
    );
}

#[test]
fn chat_strips_every_chat_prefix() {
    assert_eq!(
        parse_game_action("Chat hi Chat there"),
        GameAction::Chat { message: "hi there".to_string() }
    );
}

#[test]
fn solution_text_is_split_into_rounds() {
    let text = "SEED 42\nPLAYERS 2\n# Round 1\nP1: Move 5\nP2: Pass\n\n# Round 2\nP1: Bake\n# note\nP2 : Shoot\nnot an action line\n";
    let (rounds, seed, players) = parse_solution_text(text);
    assert_eq!(seed, Some(42));
    assert_eq!(players, Some(2));
    assert_eq!(rounds.len(), 2);
    assert_eq!(
        rounds[0],
        vec![
            ("P1".to_string(), GameAction::Move { to_room: 5 }),
            ("P2".to_string(), GameAction::Pass),
        ]
    );
    assert_eq!(
        rounds[1],
        vec![
            ("P1".to_string(), GameAction::Bake),
            ("P2".to_string(), GameAction::Shoot),
        ]
    );
}

#[test]
fn empty_solution_text_has_no_rounds() {
    let (rounds, seed, players) = parse_solution_text("\n\n# Round 1\n");
    assert!(rounds.is_empty());
    assert_eq!(seed, None);
    assert_eq!(players, None);
}

#[test]
fn emojis_for_hazards_and_items() {
    assert_eq!(get_hazard_emoji(&HazardType::Fire), "🔥");
    assert_eq!(get_hazard_emoji(&HazardType::Water), "💧");
    assert_eq!(get_item_emoji(&ItemType::Peppernut), "🍪");
    assert_eq!(get_item_emoji(&ItemType::Mitre), "🧢");
    assert_eq!(
        hazards_emoji_text(&vec![HazardType::Fire, HazardType::Water, HazardType::Fire]),
        "🔥💧🔥"
    );
    assert_eq!(items_emoji_text(&vec![ItemType::Keychain, ItemType::Wheelbarrow]), "🔑🛒");
    assert_eq!(items_emoji_text(&vec![]), "");
}

fn player(id: &str, ap: i32) -> Player {
    Player {
        id: id.to_string(),
        name: id.to_string(),
        room_id: 0,
        hp: 3,
        ap,
        is_ready: false,
        inventory: vec![],
        status: vec![],
    }
}

#[test]
fn text_order_is_the_string_order() {
    use_order("P1", "P2");
    use_order("P1", "P10");
    use_order("", "a");
    use_order("Zeta", "alpha");
    assert!(!sint_solver::text::text_less("P2", "P2"));
    assert!(sint_solver::text::text_equal("P2", "P2"));
    assert!(!sint_solver::text::text_equal("P2", "P20"));
}

fn use_order(a: &str, b: &str) {
    assert_eq!(sint_solver::text::text_less(a, b), a < b);
    assert_eq!(sint_solver::text::text_less(b, a), b < a);
}

#[test]
fn game_states_keep_players_and_rooms_in_order() {
    let room = |id: u32| Room { id, name: String::new(), hazards: vec![], items: vec![] };
    let mut s = GameState {
        phase: GamePhase::Lobby,
        turn_count: 0,
        hull_integrity: 20,
        boss_level: 0,
        enemy: Enemy { name: String::new(), hp: 1, max_hp: 1, next_attack: None },
        players: vec![player("P1", 2), player("P2", 2), player("P3", 2)],
        rooms: vec![room(1), room(2), room(7)],
        active_situations: vec![],
        latest_event: None,
    };
    assert!(s.is_well_formed());
    s.players.swap(0, 2);
    assert!(!s.is_well_formed());
    s.players.swap(0, 2);
    s.rooms.push(room(7));
    assert!(!s.is_well_formed());
}

fn crew(id: &str, ap: i32) -> CrewEntry {
    CrewEntry { id: id.to_string(), room_id: 1, ap, hp: 3, inventory: vec![], status: "[]".to_string() }
}

fn report(crew_members: Vec<CrewEntry>) -> FailureReport {
    FailureReport {
        success: false,
        round: 3,
        phase: GamePhase::TacticalPlanning,
        failed_action: Some(("P1".to_string(), "Bake".to_string())),
        error: Some("Not enough AP".to_string()),
        not_enough_ap: true,
        hull: 15,
        enemy_name: "Boss".to_string(),
        enemy_hp: 4,
        situations: vec![SituationEntry { title: "Fog".to_string(), id: "C12".to_string() }],
        rooms: vec![RoomEntry {
            id: 2,
            name: "Kitchen".to_string(),
            system: Some("Kitchen".to_string()),
            neighbors: "[1, 3]".to_string(),
            hazards: vec![HazardType::Fire],
            items: vec![ItemType::Peppernut, ItemType::Peppernut],
        }],
        crew: crew_members,
    }
}

#[test]
fn failure_report_names_the_lone_player_with_ap() {
    let mut p1 = crew("P1", 0);
    p1.inventory = vec![ItemType::Extinguisher];
    let text = failure_summary(&report(vec![p1, crew("P2", 2), crew("P3", 0)])).unwrap();
    assert_eq!(
        text,
        "\n=== FAILURE SUMMARY ===\nRound: 3\nPhase: TacticalPlanning\n\
         Failed Action: P1 performs Bake\nError: Not enough AP\n\
         Hint: Round not over. P2 still has 2 AP.\n\
         \n-- State Context --\nHull: 15 | Enemy: Boss (4 HP)\n\
         Active Situations:\n  - Fog (C12)\n\
         Map State:\n  Room 2 (Kitchen): System=Kitchen | Neighbors=[1, 3] | Hazards=[🔥] | Items=[🍪🍪]\n\
         Players:\n  P1: Room 1 | AP 0 | HP 3 | Inv [🧯] | Status []\n\
         \u{20} P2: Room 1 | AP 2 | HP 3 | Inv [] | Status []\n\
         \u{20} P3: Room 1 | AP 0 | HP 3 | Inv [] | Status []\n\
         =======================\n"
    );
    assert_eq!(lone_crew_with_ap(&vec![crew("P1", 1), crew("P2", 2), crew("P3", 0)], "P1"), Some(1));
    assert_eq!(lone_crew_with_ap(&vec![crew("P1", 1), crew("P2", 2), crew("P3", 1)], "P1"), None);
    assert_eq!(lone_crew_with_ap(&vec![crew("P1", 2)], "P1"), None);
}

#[test]
fn failure_report_without_a_failed_action() {
    let mut r = report(vec![crew("P1", 0), crew("P2", 2), crew("P3", 1)]);
    r.failed_action = None;
    r.error = None;
    r.phase = GamePhase::GameOver;
    r.situations.clear();
    r.rooms[0].system = None;
    let text = failure_summary(&r).unwrap();
    assert!(text.contains("Phase: GameOver\nResult: DEFEAT (Ship Destroyed)\n\n-- State Context --"));
    assert!(text.contains("Active Situations:\nMap State:\n  Room 2 (Kitchen): System=Empty |"));
    assert!(!text.contains("Hint"));
    r.phase = GamePhase::TacticalPlanning;
    r.error = Some("boom".to_string());
    let text = failure_summary(&r).unwrap();
    assert!(text.contains("Result: INCOMPLETE (Simulation ended without Victory)\nError: boom\n"));
    r.success = true;
    assert_eq!(failure_summary(&r), None);
}

#[test]
fn blank_lines_and_plain_comments_change_nothing() {
    let plain = "SEED 7\nP1: Bake\n# Round 2\nP2: Pass\n";
    let padded = "\n   \nSEED 7\n# just a note\nP1: Bake\n\n# Round 2\n  \t\nP2: Pass\n# end\n";
    assert_eq!(parse_solution_text(plain), parse_solution_text(padded));
}
