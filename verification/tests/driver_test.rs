use sint_solver::checker::{error_message, Applied, VerifyCommand, VerifyError, Verifier, VerifyStage};
use sint_solver::driver::{DriverStep, Readiness, Roster, Stabilizer, STABILIZE_LIMIT};
use sint_solver::model::{GameAction, GamePhase};

fn ready(id: &str, ap: i32, is_ready: bool) -> Readiness {
    Readiness { id: id.to_string(), ap, is_ready }
}

/// A toy game: actions spend AP, a pass spends all of it, and once everyone has voted
/// ready the game moves from planning to the next morning, and from the morning to
/// planning (with fresh AP).
struct ToyGame {
    roster: Roster,
}

impl ToyGame {
    fn new(phase: GamePhase, players: Vec<Readiness>) -> ToyGame {
        ToyGame { roster: Roster { phase, turn_count: 1, players } }
    }

    fn vote(&mut self, id: &str) -> Applied {
        for p in self.roster.players.iter_mut() {
            if p.id == id {
                p.is_ready = true;
            }
        }
        if self.roster.players.iter().all(|p| p.is_ready) {
            match self.roster.phase {
                GamePhase::TacticalPlanning => {
                    self.roster.phase = GamePhase::MorningReport;
                    self.roster.turn_count += 1;
                }
                _ => {
                    self.roster.phase = GamePhase::TacticalPlanning;
                    for p in self.roster.players.iter_mut() {
                        p.ap = 2;
                    }
                }
            }
            for p in self.roster.players.iter_mut() {
                p.is_ready = false;
            }
        }
        Applied::Accepted
    }

    fn act(&mut self, id: &str, action: &GameAction) -> Applied {
        if let GameAction::VoteReady { .. } = action {
            return self.vote(id);
        }
        let phase = self.roster.phase;
        match self.roster.players.iter_mut().find(|p| p.id == id) {
            Some(p) if phase == GamePhase::TacticalPlanning && p.ap > 0 => {
                if *action == GameAction::Pass {
                    p.ap = 0;
                } else {
                    p.ap -= 1;
                }
                Applied::Accepted
            }
            _ => Applied::Refused,
        }
    }
}

fn stabilize(game: &mut ToyGame) -> Vec<String> {
    let mut votes = Vec::new();
    let mut driver = Stabilizer::new();
    loop {
        match driver.step(&game.roster) {
            DriverStep::Vote(id) => {
                game.vote(&id);
                votes.push(id);
            }
            DriverStep::Done => break,
        }
    }
    votes
}

#[test]
fn driver_votes_everyone_through_the_morning() {
    let mut game = ToyGame::new(GamePhase::MorningReport, vec![ready("P1", 0, false), ready("P2", 0, false)]);
    let votes = stabilize(&mut game);
    assert_eq!(votes, vec!["P1".to_string(), "P2".to_string()]);
    assert_eq!(game.roster.phase, GamePhase::TacticalPlanning);
    assert!(game.roster.players.iter().all(|p| p.ap == 2 && !p.is_ready));
}

#[test]
fn driver_readies_players_without_ap_in_planning() {
    let mut game = ToyGame::new(GamePhase::TacticalPlanning, vec![ready("P1", 0, false), ready("P2", 2, false)]);
    let votes = stabilize(&mut game);
    assert_eq!(votes, vec!["P1".to_string()]);
    assert_eq!(game.roster.phase, GamePhase::TacticalPlanning);
    assert!(game.roster.players[0].is_ready);
    assert!(!game.roster.players[1].is_ready);
}

#[test]
fn driver_moves_to_the_next_round_when_nobody_has_ap() {
    let mut game = ToyGame::new(GamePhase::TacticalPlanning, vec![ready("P1", 0, false), ready("P2", 0, false)]);
    let votes = stabilize(&mut game);
    // Both spent players vote (the round ends), then both vote through the morning.
    assert_eq!(votes, vec!["P1", "P2", "P1", "P2"]);
    assert_eq!(game.roster.turn_count, 2);
    assert_eq!(game.roster.phase, GamePhase::TacticalPlanning);
}

#[test]
fn driver_stops_at_once_when_the_game_is_over() {
    let mut game = ToyGame::new(GamePhase::Victory, vec![ready("P1", 0, false)]);
    assert!(stabilize(&mut game).is_empty());
    let mut game = ToyGame::new(GamePhase::GameOver, vec![ready("P1", 0, false)]);
    assert!(stabilize(&mut game).is_empty());
}

#[test]
fn driver_gives_up_after_its_limit() {
    // A game that ignores every vote: the driver casts one vote per round of votes.
    let roster = Roster { phase: GamePhase::MorningReport, turn_count: 1, players: vec![ready("P1", 0, false)] };
    let mut driver = Stabilizer::new();
    let mut votes = 0u32;
    while let DriverStep::Vote(_) = driver.step(&roster) {
        votes += 1;
        assert!(votes <= STABILIZE_LIMIT);
    }
    assert_eq!(votes, STABILIZE_LIMIT);
    assert!(driver.finished);
}

enum Ending {
    Finished(bool, Option<VerifyError>, Option<(String, GameAction)>),
}

fn check(game: &mut ToyGame, rounds: Vec<Vec<(String, GameAction)>>) -> (Ending, Vec<(String, GameAction)>, u32) {
    let mut checker = Verifier::new(rounds, game.roster.turn_count);
    let mut last = Applied::Nothing;
    let mut rounds_ended = 0;
    for _ in 0..10_000 {
        assert!(checker.stage != VerifyStage::Finished);
        match checker.next(&game.roster, last) {
            VerifyCommand::Vote(id) => last = game.vote(&id),
            VerifyCommand::Act(id, action) => last = game.act(&id, &action),
            VerifyCommand::RoundEnded => {
                rounds_ended += 1;
                last = Applied::Nothing;
            }
            VerifyCommand::Continue => last = Applied::Nothing,
            VerifyCommand::Finish(o) => {
                return (Ending::Finished(o.success, o.error, o.failed_action), checker.take_history(), rounds_ended);
            }
        }
    }
    panic!("the checker did not finish");
}

fn pass(id: &str) -> (String, GameAction) {
    (id.to_string(), GameAction::Pass)
}

#[test]
fn checker_plays_whole_rounds() {
    let mut game = ToyGame::new(GamePhase::TacticalPlanning, vec![ready("P1", 2, false), ready("P2", 2, false)]);
    let (Ending::Finished(success, error, failed), history, ended) =
        check(&mut game, vec![vec![pass("P1"), pass("P2")], vec![pass("P1"), pass("P2")]]);
    assert!(!success);
    assert!(error.is_none());
    assert!(failed.is_none());
    assert!(game.roster.turn_count >= 2);
    assert_eq!(ended, 2);
    let acted: Vec<(String, GameAction)> =
        history.iter().filter(|(_, a)| *a == GameAction::Pass).cloned().collect();
    assert_eq!(acted, vec![pass("P1"), pass("P2"), pass("P1"), pass("P2")]);
}

#[test]
fn checker_fails_a_round_left_unfinished() {
    let mut game = ToyGame::new(GamePhase::TacticalPlanning, vec![ready("P1", 2, false)]);
    let (Ending::Finished(success, error, failed), history, _) =
        check(&mut game, vec![vec![("P1".to_string(), GameAction::Move { to_room: 1 })]]);
    assert!(!success);
    assert!(failed.is_none());
    match error {
        Some(VerifyError::UnfinishedRound { round, players }) => {
            assert_eq!(round, 1);
            assert_eq!(players, vec!["P1".to_string()]);
        }
        _ => panic!("expected an unfinished round"),
    }
    assert_eq!(history, vec![("P1".to_string(), GameAction::Move { to_room: 1 })]);
}

#[test]
fn checker_reports_a_refused_action() {
    let mut game = ToyGame::new(GamePhase::TacticalPlanning, vec![ready("P1", 1, false)]);
    let (Ending::Finished(success, error, failed), _, _) = check(
        &mut game,
        vec![vec![("P1".to_string(), GameAction::Bake), ("P1".to_string(), GameAction::Shoot)]],
    );
    assert!(!success);
    assert!(matches!(error, Some(VerifyError::Rejected)));
    assert_eq!(failed, Some(("P1".to_string(), GameAction::Shoot)));
}

#[test]
fn checker_reports_actions_past_the_round() {
    // The ready vote ends the round; the block still holds an action for it.
    let mut game = ToyGame::new(GamePhase::TacticalPlanning, vec![ready("P1", 2, false)]);
    let (Ending::Finished(success, error, failed), history, _) = check(
        &mut game,
        vec![vec![
            ("P1".to_string(), GameAction::VoteReady { ready: true }),
            ("P1".to_string(), GameAction::Bake),
        ]],
    );
    assert!(!success);
    match error {
        Some(VerifyError::ExtraActions { turn, round }) => {
            assert_eq!(turn, 2);
            assert_eq!(round, 1);
        }
        _ => panic!("expected extra actions"),
    }
    assert_eq!(failed, Some(("P1".to_string(), GameAction::Bake)));
    assert_eq!(history, vec![("P1".to_string(), GameAction::VoteReady { ready: true })]);
}

#[test]
fn checker_stops_when_the_game_is_won() {
    let mut game = ToyGame::new(GamePhase::Victory, vec![ready("P1", 2, false)]);
    let (Ending::Finished(success, error, _), history, _) = check(&mut game, vec![vec![pass("P1")]]);
    assert!(success);
    assert!(error.is_none());
    assert!(history.is_empty());
}

#[test]
fn check_errors_are_worded_as_invalid_actions() {
    assert_eq!(error_message(&VerifyError::Stuck), Some("Stuck in phase transition".to_string()));
    assert_eq!(error_message(&VerifyError::Rejected), None);
    assert_eq!(
        error_message(&VerifyError::ExtraActions { turn: 4, round: 3 }),
        Some("Round advanced to 4 while still executing actions for block representing Round 3. Block has extra actions.".to_string())
    );
    let msg = error_message(&VerifyError::UnfinishedRound {
        round: 1,
        players: vec!["P1".to_string(), "P\"2".to_string()],
    })
    .unwrap();
    assert!(msg.contains("but players still have AP"));
    assert_eq!(msg, format!("Round 1 block finished, but players still have AP: {:?}", vec!["P1", "P\"2"]));
    assert_eq!(
        error_message(&VerifyError::UnfinishedRound { round: 2, players: vec![] }),
        Some("Round 2 block finished, but players still have AP: []".to_string())
    );
}

#[test]
fn checker_gives_up_on_a_game_that_never_settles() {
    // Everyone is ready but the game stays in the morning: no vote can move it on.
    let mut game = ToyGame::new(GamePhase::MorningReport, vec![ready("P1", 2, true)]);
    let (Ending::Finished(success, error, failed), history, _) = check(&mut game, vec![vec![pass("P1")]]);
    assert!(!success);
    assert!(matches!(error, Some(VerifyError::Stuck)));
    assert!(failed.is_none());
    assert!(history.is_empty());
}
