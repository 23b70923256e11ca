//! Checking a solution round by round against the game: which actions to apply, when
//! rounds end, and how the check ends.

use vstd::prelude::*;
use crate::driver::{Readiness, Roster};
use crate::model::{copy_action, ActionView, GameAction, GamePhase};
use crate::search::pairs_view;
use crate::text::{seq_lt, text_less};
use crate::verification::{rounds_view, RoundActions};
use crate::replay::{append_nat, int_text};
use crate::tui::{join_spec, join_strings, lemma_texts_len, texts};

verus! {

broadcast use vstd::string::group_string_axioms;

/// The least id, in string order, of the players who have not voted ready.
pub open spec fn min_unready(ps: Seq<Readiness>) -> Option<Seq<char>>
    decreases ps.len(),
{
    if ps.len() == 0 {
        None
    } else {
        let rest = min_unready(ps.drop_last());
        let p = ps.last();
        if p.is_ready {
            rest
        } else {
            match rest {
                None => Some(p.id@),
                Some(m) => if seq_lt(p.id@, m) {
                    Some(p.id@)
                } else {
                    Some(m)
                },
            }
        }
    }
}

/// The ids of the players who still have AP and have not voted ready, in order.
pub open spec fn idle_with_ap(ps: Seq<Readiness>) -> Seq<Seq<char>>
    decreases ps.len(),
{
    if ps.len() == 0 {
        Seq::empty()
    } else {
        idle_with_ap(ps.drop_last()) + if ps.last().ap > 0 && !ps.last().is_ready {
            seq![ps.last().id@]
        } else {
            Seq::empty()
        }
    }
}

/// A phase in which the checker waits for the solution's actions, or the end.
pub open spec fn settled(p: GamePhase) -> bool {
    p == GamePhase::TacticalPlanning || p == GamePhase::GameOver || p == GamePhase::Victory
}

/// The game is over.
pub open spec fn game_over(p: GamePhase) -> bool {
    p == GamePhase::GameOver || p == GamePhase::Victory
}

/// Why a check failed.
pub enum VerifyError {
    /// The game did not come back to planning within 100 rounds of votes.
    Stuck,
    /// The game rejected an action; the game's own error says why.
    Rejected,
    /// The round had advanced to `turn` while actions of the block for round `round`
    /// were left.
    ExtraActions { turn: u32, round: u32 },
    /// The block for round `round` ended while these players still had AP.
    UnfinishedRound { round: u32, players: Vec<String> },
}

/// The value of a [`VerifyError`].
pub enum VerifyErrorView {
    Stuck,
    Rejected,
    ExtraActions { turn: u32, round: u32 },
    UnfinishedRound { round: u32, players: Seq<Seq<char>> },
}

impl View for VerifyError {
    type V = VerifyErrorView;

    open spec fn view(&self) -> VerifyErrorView {
        match self {
            VerifyError::Stuck => VerifyErrorView::Stuck,
            VerifyError::Rejected => VerifyErrorView::Rejected,
            VerifyError::ExtraActions { turn, round } => VerifyErrorView::ExtraActions {
                turn: *turn,
                round: *round,
            },
            VerifyError::UnfinishedRound { round, players } => VerifyErrorView::UnfinishedRound {
                round: *round,
                players: texts(players@),
            },
        }
    }
}

/// Where the checker stands.
#[derive(Debug, Clone, Copy, PartialEq, Eq, Structural)]
pub enum VerifyStage {
    /// About to take the next block of actions.
    NextBlock,
    /// Checking whether the game has settled before a block.
    Advance,
    /// Casting ready votes to move the game on before a block.
    AdvanceVotes,
    /// Waiting to hear whether such a vote was taken.
    AdvanceVoted,
    /// Done casting votes before a block; a round may have ended.
    AdvanceDone,
    /// Applying the block's actions.
    Acting,
    /// Waiting to hear whether a block action was taken.
    Acted,
    /// The block's actions are applied; checking that the round is complete.
    Closing,
    /// Casting ready votes to close the round.
    CloseVotes,
    /// Waiting to hear whether such a vote was taken.
    CloseVoted,
    /// The block is over; a round may have ended.
    AfterBlock,
    /// The check is over.
    Finished,
}

/// How the last command went.
#[derive(Debug, Clone, Copy, PartialEq, Eq, Structural)]
pub enum Applied {
    /// The game took the action.
    Accepted,
    /// The game refused the action.
    Refused,
    /// No action was pending.
    Nothing,
}

/// How a check ended.
pub struct VerifyOutcome {
    pub success: bool,
    pub error: Option<VerifyError>,
    pub failed_action: Option<(String, GameAction)>,
}

/// What the checker asks of the game next.
pub enum VerifyCommand {
    /// Apply a ready vote for this player, then report how it went and the new state.
    Vote(String),
    /// Apply this action of the solution, then report how it went and the new state.
    Act(String, GameAction),
    /// A round has ended (score it), then ask again.
    RoundEnded,
    /// Nothing to do; ask again.
    Continue,
    /// The check is over.
    Finish(VerifyOutcome),
}

/// The value of a [`VerifyOutcome`].
pub struct OutcomeView {
    pub success: bool,
    pub error: Option<VerifyErrorView>,
    pub failed_action: Option<(Seq<char>, ActionView)>,
}

/// The value of a [`VerifyCommand`].
pub enum CommandView {
    Vote(Seq<char>),
    Act(Seq<char>, ActionView),
    RoundEnded,
    Continue,
    Finish(OutcomeView),
}

/// The value of an outcome.
pub open spec fn outcome_view(o: VerifyOutcome) -> OutcomeView {
    OutcomeView {
        success: o.success,
        error: match o.error {
            Some(e) => Some(e@),
            None => None,
        },
        failed_action: match o.failed_action {
            Some(a) => Some((a.0@, a.1@)),
            None => None,
        },
    }
}

/// The value of a command.
pub open spec fn command_view(c: VerifyCommand) -> CommandView {
    match c {
        VerifyCommand::Vote(p) => CommandView::Vote(p@),
        VerifyCommand::Act(p, a) => CommandView::Act(p@, a@),
        VerifyCommand::RoundEnded => CommandView::RoundEnded,
        VerifyCommand::Continue => CommandView::Continue,
        VerifyCommand::Finish(o) => CommandView::Finish(outcome_view(o)),
    }
}

/// The checker's state.
pub struct Verifier {
    pub rounds: Vec<RoundActions>,
    pub round_idx: usize,
    pub action_idx: usize,
    pub stage: VerifyStage,
    pub loop_safety: u32,
    pub last_round: u32,
    pub round_start: u32,
    /// The command waiting for its result.
    pub pending: Option<(String, GameAction)>,
    /// The actions the game took, in order.
    pub history: Vec<(String, GameAction)>,
}

/// The value of the checker's state.
pub struct VerifierView {
    pub rounds: Seq<Seq<(Seq<char>, ActionView)>>,
    pub round_idx: nat,
    pub action_idx: nat,
    pub stage: VerifyStage,
    pub loop_safety: nat,
    pub last_round: nat,
    pub round_start: nat,
    pub pending: Option<(Seq<char>, ActionView)>,
    pub history: Seq<(Seq<char>, ActionView)>,
}

impl Verifier {
    /// The value of the checker's state.
    pub open spec fn view_of(&self) -> VerifierView {
        VerifierView {
            rounds: rounds_view(self.rounds@),
            round_idx: self.round_idx as nat,
            action_idx: self.action_idx as nat,
            stage: self.stage,
            loop_safety: self.loop_safety as nat,
            last_round: self.last_round as nat,
            round_start: self.round_start as nat,
            pending: match self.pending {
                Some(a) => Some((a.0@, a.1@)),
                None => None,
            },
            history: pairs_view(self.history@),
        }
    }

    /// The checker's bookkeeping is consistent.
    pub open spec fn well_formed(&self) -> bool {
        &&& self.round_idx <= self.rounds@.len()
        &&& self.loop_safety <= 101
        &&& self.stage != VerifyStage::Finished ==> self.loop_safety <= 100
        &&& (self.stage != VerifyStage::NextBlock && self.stage != VerifyStage::Finished)
            ==> self.round_idx < self.rounds@.len()
        &&& (self.stage == VerifyStage::Acting || self.stage == VerifyStage::Acted)
            ==> self.action_idx <= self.rounds@[self.round_idx as int]@.len()
        &&& (self.stage == VerifyStage::Acted || self.stage == VerifyStage::AdvanceVoted || self.stage
            == VerifyStage::CloseVoted) ==> self.pending is Some
        &&& self.stage == VerifyStage::Acted ==> self.action_idx < self.rounds@[self.round_idx as int]@.len()
    }
}

/// A normal end: success exactly when the game is won.
pub open spec fn normal_end(r: Roster) -> CommandView {
    CommandView::Finish(OutcomeView { success: r.phase == GamePhase::Victory, error: None, failed_action: None })
}

/// A failed check.
pub open spec fn failure(e: VerifyErrorView, a: Option<(Seq<char>, ActionView)>) -> CommandView {
    CommandView::Finish(OutcomeView { success: false, error: Some(e), failed_action: a })
}

/// One step of the checker, given the game's current state `r` and how the last
/// command went.
///
/// Before each block it moves the game on by ready votes (least id first) until
/// planning or the end, giving up after 100 rounds of votes; a block's actions are
/// applied in order, failing when the game refuses one or when the round has already
/// moved on; after the block, players who still have AP fail the check, and otherwise
/// everyone votes ready to close the round. A round ends whenever the round number
/// rises past the last one seen. The check ends normally when the blocks run out or
/// the game is over, and succeeds exactly when the game is won.
pub open spec fn verify_step(m: VerifierView, r: Roster, last: Applied) -> (VerifierView, CommandView) {
    match m.stage {
        VerifyStage::NextBlock => if m.round_idx >= m.rounds.len() || game_over(r.phase) {
            (VerifierView { stage: VerifyStage::Finished, ..m }, normal_end(r))
        } else {
            (VerifierView { stage: VerifyStage::Advance, loop_safety: 0, ..m }, CommandView::Continue)
        },
        VerifyStage::Advance => if !settled(r.phase) {
            if m.loop_safety + 1 > 100 {
                (VerifierView { stage: VerifyStage::Finished, loop_safety: m.loop_safety + 1, ..m }, failure(
                    VerifyErrorView::Stuck,
                    None,
                ))
            } else {
                (VerifierView { stage: VerifyStage::AdvanceVotes, loop_safety: m.loop_safety + 1, ..m }, CommandView::Continue)
            }
        } else if game_over(r.phase) {
            (VerifierView { stage: VerifyStage::Finished, ..m }, normal_end(r))
        } else {
            (VerifierView { stage: VerifyStage::Acting, round_start: r.turn_count as nat, action_idx: 0, ..m }, CommandView::Continue)
        },
        VerifyStage::AdvanceVotes => if settled(r.phase) {
            (VerifierView { stage: VerifyStage::AdvanceDone, ..m }, CommandView::Continue)
        } else {
            match min_unready(r.players@) {
                Some(pid) => (VerifierView {
                    stage: VerifyStage::AdvanceVoted,
                    pending: Some((pid, ActionView::VoteReady { ready: true })),
                    ..m
                }, CommandView::Vote(pid)),
                None => (VerifierView { stage: VerifyStage::AdvanceDone, ..m }, CommandView::Continue),
            }
        },
        VerifyStage::AdvanceVoted => if last == Applied::Accepted {
            (VerifierView { stage: VerifyStage::AdvanceVotes, history: m.history.push(m.pending->0), pending: None, ..m }, CommandView::Continue)
        } else {
            (VerifierView { stage: VerifyStage::AdvanceDone, pending: None, ..m }, CommandView::Continue)
        },
        VerifyStage::AdvanceDone => if r.turn_count > m.last_round {
            (VerifierView { stage: VerifyStage::Advance, last_round: r.turn_count as nat, ..m }, CommandView::RoundEnded)
        } else {
            (VerifierView { stage: VerifyStage::Advance, ..m }, CommandView::Continue)
        },
        VerifyStage::Acting => {
            let block = m.rounds[m.round_idx as int];
            if m.action_idx >= block.len() {
                (VerifierView { stage: VerifyStage::Closing, ..m }, CommandView::Continue)
            } else {
                let act = block[m.action_idx as int];
                if r.turn_count > m.round_start {
                    (VerifierView { stage: VerifyStage::Finished, ..m }, failure(
                        VerifyErrorView::ExtraActions { turn: r.turn_count, round: m.round_start as u32 },
                        Some(act),
                    ))
                } else {
                    (VerifierView { stage: VerifyStage::Acted, pending: Some(act), ..m }, CommandView::Act(act.0, act.1))
                }
            }
        },
        VerifyStage::Acted => if last == Applied::Accepted {
            (VerifierView {
                stage: VerifyStage::Acting,
                history: m.history.push(m.pending->0),
                pending: None,
                action_idx: m.action_idx + 1,
                ..m
            }, CommandView::Continue)
        } else {
            (VerifierView { stage: VerifyStage::Finished, pending: None, ..m }, failure(
                VerifyErrorView::Rejected,
                m.pending,
            ))
        },
        VerifyStage::Closing => if r.turn_count == m.round_start && r.phase == GamePhase::TacticalPlanning {
            let idle = idle_with_ap(r.players@);
            if idle.len() > 0 {
                (VerifierView { stage: VerifyStage::Finished, ..m }, failure(
                    VerifyErrorView::UnfinishedRound { round: m.round_start as u32, players: idle },
                    None,
                ))
            } else {
                (VerifierView { stage: VerifyStage::CloseVotes, ..m }, CommandView::Continue)
            }
        } else {
            (VerifierView { stage: VerifyStage::AfterBlock, ..m }, CommandView::Continue)
        },
        VerifyStage::CloseVotes => if r.phase != GamePhase::TacticalPlanning {
            (VerifierView { stage: VerifyStage::AfterBlock, ..m }, CommandView::Continue)
        } else {
            match min_unready(r.players@) {
                Some(pid) => (VerifierView {
                    stage: VerifyStage::CloseVoted,
                    pending: Some((pid, ActionView::VoteReady { ready: true })),
                    ..m
                }, CommandView::Vote(pid)),
                None => (VerifierView { stage: VerifyStage::AfterBlock, ..m }, CommandView::Continue),
            }
        },
        VerifyStage::CloseVoted => if last == Applied::Accepted {
            (VerifierView { stage: VerifyStage::CloseVotes, history: m.history.push(m.pending->0), pending: None, ..m }, CommandView::Continue)
        } else {
            (VerifierView { stage: VerifyStage::AfterBlock, pending: None, ..m }, CommandView::Continue)
        },
        VerifyStage::AfterBlock => if (r.turn_count != m.round_start || r.phase != GamePhase::TacticalPlanning)
            && r.turn_count > m.last_round {
            (VerifierView { stage: VerifyStage::NextBlock, round_idx: m.round_idx + 1, last_round: r.turn_count as nat, ..m }, CommandView::RoundEnded)
        } else {
            (VerifierView { stage: VerifyStage::NextBlock, round_idx: m.round_idx + 1, ..m }, CommandView::Continue)
        },
        VerifyStage::Finished => (m, CommandView::Continue),
    }
}

fn least_unready(ps: &Vec<Readiness>) -> (r: Option<String>)
    ensures
        match r {
            Some(id) => min_unready(ps@) == Some(id@),
            None => min_unready(ps@) is None,
        },
{
    let mut best: Option<String> = None;
    let mut i: usize = 0;
    assert(ps@.take(0) =~= Seq::<Readiness>::empty());
    while i < ps.len()
        invariant
            0 <= i <= ps@.len(),
            match best {
                Some(id) => min_unready(ps@.take(i as int)) == Some(id@),
                None => min_unready(ps@.take(i as int)) is None,
            },
        decreases ps@.len() - i,
    {
        let p = &ps[i];
        proof {
            assert(ps@.take(i + 1).drop_last() =~= ps@.take(i as int));
            assert(ps@.take(i + 1).last() == *p);
        }
        if !p.is_ready {
            let replace = match &best {
                None => true,
                Some(m) => text_less(p.id.as_str(), m.as_str()),
            };
            if replace {
                best = Some(p.id.clone());
            }
        }
        i += 1;
    }
    assert(ps@.take(i as int) =~= ps@);
    best
}

fn idle_players(ps: &Vec<Readiness>) -> (r: Vec<String>)
    ensures
        texts(r@) == idle_with_ap(ps@),
{
    let mut r: Vec<String> = Vec::new();
    let mut i: usize = 0;
    assert(ps@.take(0) =~= Seq::<Readiness>::empty());
    while i < ps.len()
        invariant
            0 <= i <= ps@.len(),
            texts(r@) == idle_with_ap(ps@.take(i as int)),
        decreases ps@.len() - i,
    {
        let p = &ps[i];
        let ghost r0 = r@;
        proof {
            assert(ps@.take(i + 1).drop_last() =~= ps@.take(i as int));
            assert(ps@.take(i + 1).last() == *p);
        }
        if p.ap > 0 && !p.is_ready {
            r.push(p.id.clone());
            assert(r@.drop_last() =~= r0);
        }
        i += 1;
        assert(texts(r@) =~= idle_with_ap(ps@.take(i as int)));
    }
    assert(ps@.take(i as int) =~= ps@);
    r
}

fn copy_entry(e: &(String, GameAction)) -> (r: (String, GameAction))
    ensures
        r == *e,
{
    (e.0.clone(), copy_action(&e.1))
}

impl Verifier {
    /// A checker for the blocks `rounds`, one block of actions per round, starting on a
    /// game whose round number is `turn_count`.
    pub fn new(rounds: Vec<RoundActions>, turn_count: u32) -> (r: Verifier)
        ensures
            r.well_formed(),
            r.view_of() == (VerifierView {
                rounds: rounds_view(rounds@),
                round_idx: 0,
                action_idx: 0,
                stage: VerifyStage::NextBlock,
                loop_safety: 0,
                last_round: turn_count as nat,
                round_start: turn_count as nat,
                pending: None,
                history: Seq::empty(),
            }),
    {
        let r = Verifier {
            rounds,
            round_idx: 0,
            action_idx: 0,
            stage: VerifyStage::NextBlock,
            loop_safety: 0,
            last_round: turn_count,
            round_start: turn_count,
            pending: None,
            history: Vec::new(),
        };
        assert(pairs_view(r.history@) =~= Seq::<(Seq<char>, ActionView)>::empty());
        r
    }

    /// The checker's next command, given the game's current state and how the last
    /// command went (see [`verify_step`]).
    pub fn next(&mut self, r: &Roster, last: Applied) -> (c: VerifyCommand)
        requires
            old(self).well_formed(),
            old(self).stage != VerifyStage::Finished,
        ensures
            final(self).well_formed(),
            (final(self).view_of(), command_view(c)) == verify_step(old(self).view_of(), *r, last),
    {
        let ghost m = self.view_of();
        match self.stage {
            VerifyStage::NextBlock => {
                if self.round_idx >= self.rounds.len() || r.phase == GamePhase::GameOver || r.phase
                    == GamePhase::Victory {
                    self.stage = VerifyStage::Finished;
                    VerifyCommand::Finish(
                        VerifyOutcome { success: r.phase == GamePhase::Victory, error: None, failed_action: None },
                    )
                } else {
                    self.stage = VerifyStage::Advance;
                    self.loop_safety = 0;
                    VerifyCommand::Continue
                }
            },
            VerifyStage::Advance => {
                let is_settled = r.phase == GamePhase::TacticalPlanning || r.phase == GamePhase::GameOver
                    || r.phase == GamePhase::Victory;
                if !is_settled {
                    self.loop_safety = self.loop_safety + 1;
                    if self.loop_safety > 100 {
                        self.stage = VerifyStage::Finished;
                        VerifyCommand::Finish(
                            VerifyOutcome { success: false, error: Some(VerifyError::Stuck), failed_action: None },
                        )
                    } else {
                        self.stage = VerifyStage::AdvanceVotes;
                        VerifyCommand::Continue
                    }
                } else if r.phase != GamePhase::TacticalPlanning {
                    self.stage = VerifyStage::Finished;
                    VerifyCommand::Finish(
                        VerifyOutcome { success: r.phase == GamePhase::Victory, error: None, failed_action: None },
                    )
                } else {
                    self.stage = VerifyStage::Acting;
                    self.round_start = r.turn_count;
                    self.action_idx = 0;
                    VerifyCommand::Continue
                }
            },
            VerifyStage::AdvanceVotes | VerifyStage::CloseVotes => {
                let closing = self.stage == VerifyStage::CloseVotes;
                let done = if closing {
                    r.phase != GamePhase::TacticalPlanning
                } else {
                    r.phase == GamePhase::TacticalPlanning || r.phase == GamePhase::GameOver || r.phase
                        == GamePhase::Victory
                };
                let after = if closing { VerifyStage::AfterBlock } else { VerifyStage::AdvanceDone };
                if done {
                    self.stage = after;
                    VerifyCommand::Continue
                } else {
                    match least_unready(&r.players) {
                        Some(pid) => {
                            self.stage = if closing { VerifyStage::CloseVoted } else { VerifyStage::AdvanceVoted };
                            self.pending = Some((pid.clone(), GameAction::VoteReady { ready: true }));
                            VerifyCommand::Vote(pid)
                        },
                        None => {
                            self.stage = after;
                            VerifyCommand::Continue
                        },
                    }
                }
            },
            VerifyStage::AdvanceVoted | VerifyStage::CloseVoted => {
                let closing = self.stage == VerifyStage::CloseVoted;
                let pending = self.pending.take();
                if last == Applied::Accepted {
                    match pending {
                        Some(e) => {
                            let ghost h0 = self.history@;
                            self.history.push(e);
                            proof {
                                assert(self.history@.drop_last() =~= h0);
                            }
                        },
                        None => {},
                    }
                    self.stage = if closing { VerifyStage::CloseVotes } else { VerifyStage::AdvanceVotes };
                } else {
                    self.stage = if closing { VerifyStage::AfterBlock } else { VerifyStage::AdvanceDone };
                }
                VerifyCommand::Continue
            },
            VerifyStage::AdvanceDone => {
                self.stage = VerifyStage::Advance;
                if r.turn_count > self.last_round {
                    self.last_round = r.turn_count;
                    VerifyCommand::RoundEnded
                } else {
                    VerifyCommand::Continue
                }
            },
            VerifyStage::Acting => {
                let n = self.rounds[self.round_idx].len();
                proof {
                    lemma_rounds_view_index(self.rounds@, self.round_idx as int);
                }
                if self.action_idx >= n {
                    self.stage = VerifyStage::Closing;
                    VerifyCommand::Continue
                } else {
                    let e = copy_entry(&self.rounds[self.round_idx][self.action_idx]);
                    proof {
                        lemma_round_view_index(self.rounds@[self.round_idx as int]@, self.action_idx as int);
                    }
                    if r.turn_count > self.round_start {
                        self.stage = VerifyStage::Finished;
                        VerifyCommand::Finish(VerifyOutcome {
                            success: false,
                            error: Some(VerifyError::ExtraActions { turn: r.turn_count, round: self.round_start }),
                            failed_action: Some(e),
                        })
                    } else {
                        let e2 = copy_entry(&e);
                        self.pending = Some(e2);
                        self.stage = VerifyStage::Acted;
                        VerifyCommand::Act(e.0, e.1)
                    }
                }
            },
            VerifyStage::Acted => {
                let pending = self.pending.take();
                if last == Applied::Accepted {
                    match pending {
                        Some(e) => {
                            let ghost h0 = self.history@;
                            self.history.push(e);
                            proof {
                                assert(self.history@.drop_last() =~= h0);
                            }
                        },
                        None => {},
                    }
                    let n = self.rounds[self.round_idx].len();
                    assert(self.action_idx < n);
                    self.action_idx = self.action_idx + 1;
                    self.stage = VerifyStage::Acting;
                    VerifyCommand::Continue
                } else {
                    self.stage = VerifyStage::Finished;
                    VerifyCommand::Finish(
                        VerifyOutcome { success: false, error: Some(VerifyError::Rejected), failed_action: pending },
                    )
                }
            },
            VerifyStage::Closing => {
                if r.turn_count == self.round_start && r.phase == GamePhase::TacticalPlanning {
                    let idle = idle_players(&r.players);
                    proof {
                        lemma_texts_len(idle@);
                    }
                    if idle.len() > 0 {
                        self.stage = VerifyStage::Finished;
                        VerifyCommand::Finish(VerifyOutcome {
                            success: false,
                            error: Some(VerifyError::UnfinishedRound { round: self.round_start, players: idle }),
                            failed_action: None,
                        })
                    } else {
                        self.stage = VerifyStage::CloseVotes;
                        VerifyCommand::Continue
                    }
                } else {
                    self.stage = VerifyStage::AfterBlock;
                    VerifyCommand::Continue
                }
            },
            VerifyStage::AfterBlock => {
                let n = self.rounds.len();
                assert(self.round_idx < n);
                self.round_idx = self.round_idx + 1;
                self.stage = VerifyStage::NextBlock;
                if (r.turn_count != self.round_start || r.phase != GamePhase::TacticalPlanning)
                    && r.turn_count > self.last_round {
                    self.last_round = r.turn_count;
                    VerifyCommand::RoundEnded
                } else {
                    VerifyCommand::Continue
                }
            },
            VerifyStage::Finished => VerifyCommand::Continue,
        }
    }
}

proof fn lemma_rounds_view_index(rs: Seq<RoundActions>, i: int)
    requires
        0 <= i < rs.len(),
    ensures
        rounds_view(rs).len() == rs.len(),
        rounds_view(rs)[i] == crate::verification::round_view(rs[i]@),
        crate::verification::round_view(rs[i]@).len() == rs[i]@.len(),
{
}

proof fn lemma_round_view_index(r: Seq<(String, GameAction)>, k: int)
    requires
        0 <= k < r.len(),
    ensures
        crate::verification::round_view(r)[k] == (r[k].0@, r[k].1@),
{
}

impl Verifier {
    /// The actions the game took, in order.
    pub fn take_history(self) -> (h: Vec<(String, GameAction)>)
        ensures
            pairs_view(h@) == self.view_of().history,
    {
        self.history
    }
}

/// What std's `Debug` writes for a text (`{:?}` on a `str`): the text in double
/// quotes, with quotes, backslashes and other characters escaped as std escapes them.
pub uninterp spec fn debug_text(s: Seq<char>) -> Seq<char>;

/// std's `Debug` for `str`. The output depends on the text alone; the escapes are std's
/// and are not restated here, so only the name [`debug_text`] is given to it.
#[verifier::external_body]
fn debug_quoted(s: &str) -> (r: String)
    ensures
        r@ == debug_text(s@),
{
    format!("{:?}", s)
}

/// The quoted texts of a list of ids, in order.
pub open spec fn quoted_ids(ids: Seq<Seq<char>>) -> Seq<Seq<char>>
    decreases ids.len(),
{
    if ids.len() == 0 {
        Seq::empty()
    } else {
        quoted_ids(ids.drop_last()).push(debug_text(ids.last()))
    }
}

/// The words of a failed check's error, as the game words an invalid action; `None`
/// where the game itself refused an action (its own error says why).
pub open spec fn error_message_spec(e: VerifyErrorView) -> Option<Seq<char>> {
    match e {
        VerifyErrorView::Stuck => Some("Stuck in phase transition"@),
        VerifyErrorView::Rejected => None,
        VerifyErrorView::ExtraActions { turn, round } => Some(
            "Round advanced to "@ + int_text(turn as int)
                + " while still executing actions for block representing Round "@ + int_text(
                round as int,
            ) + ". Block has extra actions."@,
        ),
        VerifyErrorView::UnfinishedRound { round, players } => Some(
            "Round "@ + int_text(round as int) + " block finished, but players still have AP: ["@
                + join_spec(quoted_ids(players), ", "@) + "]"@,
        ),
    }
}

/// The words of a failed check's error (see [`error_message_spec`]).
pub fn error_message(e: &VerifyError) -> (r: Option<String>)
    ensures
        match r {
            Some(t) => error_message_spec(e@) == Some(t@),
            None => error_message_spec(e@) is None,
        },
{
    match e {
        VerifyError::Stuck => Some(String::from_str("Stuck in phase transition")),
        VerifyError::Rejected => None,
        VerifyError::ExtraActions { turn, round } => {
            let mut out = String::from_str("Round advanced to ");
            append_nat(&mut out, *turn as u64);
            out.append(" while still executing actions for block representing Round ");
            append_nat(&mut out, *round as u64);
            out.append(". Block has extra actions.");
            Some(out)
        },
        VerifyError::UnfinishedRound { round, players } => {
            let mut quoted: Vec<String> = Vec::new();
            let mut i: usize = 0;
            while i < players.len()
                invariant
                    0 <= i <= players@.len(),
                    texts(quoted@) == quoted_ids(texts(players@.take(i as int))),
                decreases players@.len() - i,
            {
                let q = debug_quoted(players[i].as_str());
                proof {
                    let pre = players@.take(i as int);
                    let nxt = players@.take(i + 1);
                    assert(nxt.drop_last() =~= pre);
                    assert(nxt.last() == players@[i as int]);
                    let sv = texts(pre);
                    assert(texts(nxt) == sv.push(players@[i as int]@));
                    assert(sv.push(players@[i as int]@).drop_last() =~= sv);
                    assert(quoted_ids(sv.push(players@[i as int]@)) == quoted_ids(sv).push(
                        debug_text(players@[i as int]@),
                    ));
                    assert(quoted@.push(q).drop_last() =~= quoted@);
                    assert(texts(quoted@.push(q)) == texts(quoted@).push(q@));
                }
                quoted.push(q);
                i += 1;
            }
            proof {
                assert(players@.take(i as int) =~= players@);
            }
            let mut out = String::from_str("Round ");
            append_nat(&mut out, *round as u64);
            out.append(" block finished, but players still have AP: [");
            let joined = join_strings(quoted.as_slice(), ", ");
            out.append(joined.as_str());
            out.append("]");
            Some(out)
        },
    }
}

/// What the checker promises at every step: a check that ends without an error
/// succeeds exactly when the game is won (in particular when the blocks have run
/// out), one that ends with an error fails; the
/// actions it has the game apply are the solution's, in block order, or ready votes;
/// and its history grows by exactly the pending action when the game takes it, and is
/// otherwise left alone.
pub proof fn lemma_checker_step(m: VerifierView, r: Roster, last: Applied)
    requires
        m.round_idx <= m.rounds.len(),
        m.stage == VerifyStage::Acting ==> m.round_idx < m.rounds.len(),
        (m.stage == VerifyStage::Acted || m.stage == VerifyStage::AdvanceVoted || m.stage
            == VerifyStage::CloseVoted) ==> m.pending is Some,
    ensures
        ({
            let (m2, c) = verify_step(m, r, last);
            &&& c matches CommandView::Finish(o) ==> (o.success ==> r.phase == GamePhase::Victory)
            &&& c matches CommandView::Finish(o) ==> (o.error is None ==> (o.success <==> r.phase
                == GamePhase::Victory))
            &&& c matches CommandView::Finish(o) ==> (o.error is Some ==> !o.success)
            &&& (m.stage == VerifyStage::NextBlock && m.round_idx >= m.rounds.len()) ==> (c matches CommandView::Finish(o)
                && o.error is None && (o.success <==> r.phase == GamePhase::Victory))
            &&& c matches CommandView::Act(p, a) ==> m.stage == VerifyStage::Acting
                && m.action_idx < m.rounds[m.round_idx as int].len()
                && (p, a) == m.rounds[m.round_idx as int][m.action_idx as int]
            &&& c matches CommandView::Vote(p) ==> min_unready(r.players@) == Some(p)
            &&& m2.history == m.history || (last == Applied::Accepted && m.pending is Some
                && m2.history == m.history.push(m.pending->0))
        }),
{
}

/// A block that leaves players with AP fails the check, naming exactly those players.
pub proof fn lemma_unfinished_round(m: VerifierView, r: Roster, last: Applied)
    requires
        m.stage == VerifyStage::Closing,
        r.turn_count == m.round_start,
        r.phase == GamePhase::TacticalPlanning,
        idle_with_ap(r.players@).len() > 0,
    ensures
        verify_step(m, r, last).1 == failure(
            VerifyErrorView::UnfinishedRound { round: m.round_start as u32, players: idle_with_ap(r.players@) },
            None,
        ),
{
}

} // verus!
