use sint_solver::relay::{Incoming, Outgoing, RelayAction, RoomList, Session};
use sint_solver::tuning::{
    game_tasks, outcome_status, rank_weight_total, seed_outcome, select_parent_idx, SeedOutcome,
    SeedTally,
};
use rand::SeedableRng;
use sint_solver::model::GamePhase;

#[test]
fn room_list_keeps_the_ids() {
    let l = RoomList::from_ids(vec!["a".to_string(), "b".to_string()]);
    assert_eq!(l.rooms, vec!["a".to_string(), "b".to_string()]);
}

#[test]
fn events_are_dropped_before_joining() {
    let mut s = Session::new();
    let a = s.handle(Incoming::Event { sequence_id: 1, data: "{}".to_string() }, true);
    assert!(matches!(a, RelayAction::Wait));
    let a = s.handle(Incoming::SyncRequest { requestor_id: "P1".to_string() }, true);
    assert!(matches!(a, RelayAction::Wait));
    assert!(s.room.is_none());
}

#[test]
fn joined_sessions_relay_to_their_room() {
    let mut s = Session::new();
    match s.handle(Incoming::Join { room_id: "r1".to_string(), player_id: "P1".to_string() }, false) {
        RelayAction::JoinRoom { room_id, welcome: Outgoing::Welcome { room_id: w } } => {
            assert_eq!(room_id, "r1");
            assert_eq!(w, "r1");
        }
        _ => panic!("expected a join"),
    }
    assert_eq!(s.room.as_deref(), Some("r1"));
    match s.handle(Incoming::Event { sequence_id: 9, data: "{\"x\":1}".to_string() }, true) {
        RelayAction::Broadcast { room_id, message: Outgoing::Event { sequence_id, data } } => {
            assert_eq!(room_id, "r1");
            assert_eq!(sequence_id, 9);
            assert_eq!(data, "{\"x\":1}");
        }
        _ => panic!("expected a broadcast"),
    }
    match s.handle(Incoming::SyncRequest { requestor_id: "P2".to_string() }, true) {
        RelayAction::Broadcast { message: Outgoing::SyncRequest { requestor_id }, .. } => {
            assert_eq!(requestor_id, "P2")
        }
        _ => panic!("expected a broadcast"),
    }
    assert!(matches!(s.handle(Incoming::Event { sequence_id: 10, data: String::new() }, false), RelayAction::Wait));
    match s.handle(Incoming::RoomMessage("hello".to_string()), true) {
        RelayAction::Forward(m) => assert_eq!(m, "hello"),
        _ => panic!("expected a forward"),
    }
    assert!(matches!(s.handle(Incoming::RoomLagged(3), true), RelayAction::ReportLagged(3)));
    assert!(matches!(s.handle(Incoming::Malformed { reason: "bad".to_string() }, true), RelayAction::ReportMalformed(_)));
    assert!(matches!(s.handle(Incoming::Ignored, true), RelayAction::Wait));
    assert!(matches!(s.handle(Incoming::Closed, true), RelayAction::Stop));
    assert!(matches!(s.handle(Incoming::RoomClosed, true), RelayAction::Stop));
    assert_eq!(s.room.as_deref(), Some("r1"));
    s.handle(Incoming::Join { room_id: "r2".to_string(), player_id: "P1".to_string() }, true);
    assert_eq!(s.room.as_deref(), Some("r2"));
}

#[test]
fn games_are_classified_and_tallied() {
    assert_eq!(seed_outcome(Some(GamePhase::Victory)), SeedOutcome::Won);
    assert_eq!(seed_outcome(Some(GamePhase::GameOver)), SeedOutcome::Lost);
    assert_eq!(seed_outcome(Some(GamePhase::TacticalPlanning)), SeedOutcome::TimedOut);
    assert_eq!(seed_outcome(None), SeedOutcome::Panicked);
    assert_eq!(outcome_status(SeedOutcome::Won), 2);
    assert_eq!(outcome_status(SeedOutcome::Lost), 3);
    assert_eq!(outcome_status(SeedOutcome::Panicked), 4);
    assert_eq!(outcome_status(SeedOutcome::TimedOut), 5);
    let mut t = SeedTally::new();
    t.add(&SeedTally::of_outcome(SeedOutcome::Won));
    t.add(&SeedTally::of_outcome(SeedOutcome::Won));
    t.add(&SeedTally::of_outcome(SeedOutcome::Panicked));
    assert_eq!(t, SeedTally { wins: 2, losses: 0, timeouts: 0, panics: 1 });
}

#[test]
fn batches_play_every_genome_on_every_seed() {
    assert_eq!(game_tasks(2, 3), vec![(0, 0), (0, 1), (0, 2), (1, 0), (1, 1), (1, 2)]);
    assert!(game_tasks(0, 4).is_empty());
    assert!(game_tasks(4, 0).is_empty());
}

#[test]
fn parents_are_drawn_by_rank() {
    assert_eq!(rank_weight_total(4), 10);
    assert_eq!(rank_weight_total(0), 0);
    // Weights 4, 3, 2, 1: draws 0-3 pick rank 0, 4-6 rank 1, 7-8 rank 2, 9 rank 3.
    let picks: Vec<usize> = (0..10).map(|r| select_parent_idx(r, 4, 4)).collect();
    assert_eq!(picks, vec![0, 0, 0, 0, 1, 1, 1, 2, 2, 3]);
    assert_eq!(select_parent_idx(12, 4, 4), 0);
}

#[test]
fn random_parent_draws_reach_every_rank() {
    let mut rng = rand::rngs::StdRng::seed_from_u64(11);
    let mut seen = [0usize; 3];
    for _ in 0..2000 {
        let i = sint_solver::tuning::draw_parent(&mut rng, 3, 3);
        assert!(i < 3);
        seen[i] += 1;
    }
    assert!(seen.iter().all(|&n| n > 0));
    // Weights 3, 2, 1: the fittest is drawn most often.
    assert!(seen[0] > seen[2]);
}
