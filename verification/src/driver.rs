//! Bringing a game to its next decision point: the ready votes the driver casts.

use vstd::prelude::*;
use crate::model::GamePhase;
use crate::tui::{lemma_texts_len, texts};

verus! {

broadcast use vstd::string::group_string_axioms;

/// A player's readiness, as the driver sees it.
pub struct Readiness {
    pub id: String,
    pub ap: i32,
    pub is_ready: bool,
}

/// What the driver reads of a game state: the phase, the round, and each player's
/// readiness, in the game's order of players.
pub struct Roster {
    pub phase: GamePhase,
    pub turn_count: u32,
    pub players: Vec<Readiness>,
}

/// The game is over, won or lost.
pub open spec fn is_over(p: GamePhase) -> bool {
    p == GamePhase::GameOver || p == GamePhase::Victory
}

/// The ids of the players who have not voted ready, in order.
pub open spec fn unready_ids(ps: Seq<Readiness>) -> Seq<Seq<char>>
    decreases ps.len(),
{
    if ps.len() == 0 {
        Seq::empty()
    } else {
        unready_ids(ps.drop_last()) + if !ps.last().is_ready {
            seq![ps.last().id@]
        } else {
            Seq::empty()
        }
    }
}

/// The ids of the players who have no AP left and have not voted ready, in order.
pub open spec fn spent_unready_ids(ps: Seq<Readiness>) -> Seq<Seq<char>>
    decreases ps.len(),
{
    if ps.len() == 0 {
        Seq::empty()
    } else {
        spent_unready_ids(ps.drop_last()) + if ps.last().ap <= 0 && !ps.last().is_ready {
            seq![ps.last().id@]
        } else {
            Seq::empty()
        }
    }
}

/// Which round of votes the driver is casting.
#[derive(Debug, Clone, Copy, PartialEq, Eq, Structural)]
pub enum VoteRound {
    /// Not casting votes: the next step looks at the state afresh.
    Idle,
    /// Everyone unready votes, outside planning, until planning or the end comes.
    Outside,
    /// Players without AP vote, during planning, until the phase changes.
    Spent,
}

/// What the driver does next.
pub enum DriverStep {
    /// Vote ready for this player, then report the new state.
    Vote(String),
    /// The state is stable: planning with someone left to act, or the game is over
    /// (or the driver gave up after 5000 rounds of votes).
    Done,
}

/// The number of rounds of votes after which the driver gives up.
pub const STABILIZE_LIMIT: u32 = 5000;

/// The driver's progress towards a stable state.
pub struct Stabilizer {
    /// Rounds of votes started so far.
    pub rounds: u32,
    pub mode: VoteRound,
    /// The players to vote for in this round of votes.
    pub queue: Vec<String>,
    /// How many of them have voted.
    pub next: usize,
    pub finished: bool,
}

/// The value of a driver step: the id voted for, or `None` when done.
pub open spec fn step_view(s: DriverStep) -> Option<Seq<char>> {
    match s {
        DriverStep::Vote(id) => Some(id@),
        DriverStep::Done => None,
    }
}

/// The driver's state as values.
pub struct StabilizerView {
    pub rounds: nat,
    pub mode: VoteRound,
    pub queue: Seq<Seq<char>>,
    pub next: nat,
    pub finished: bool,
}

impl Stabilizer {
    /// The driver's bookkeeping is consistent: the next voter is within the round of
    /// votes, and a driver that has not finished is within its limit.
    pub open spec fn well_formed(&self) -> bool {
        &&& self.next <= self.queue@.len()
        &&& self.rounds <= STABILIZE_LIMIT + 1
        &&& !self.finished ==> self.rounds <= STABILIZE_LIMIT
    }

    /// The value of the driver's state.
    pub open spec fn view_of(&self) -> StabilizerView {
        StabilizerView {
            rounds: self.rounds as nat,
            mode: self.mode,
            queue: texts(self.queue@),
            next: self.next as nat,
            finished: self.finished,
        }
    }
}

/// The start of a round of votes, given the state `r` (the top of the driver's loop):
/// stop once the limit is passed or the game is over; outside planning, everyone
/// unready votes (stop if nobody is); in planning, everyone without AP who is unready
/// votes (stop if nobody is).
pub open spec fn begin_round(m: StabilizerView, r: Roster) -> (StabilizerView, Option<Seq<char>>) {
    let rounds = m.rounds + 1;
    if rounds > STABILIZE_LIMIT || is_over(r.phase) {
        (StabilizerView { rounds, mode: VoteRound::Idle, queue: Seq::empty(), next: 0, finished: true }, None)
    } else if r.phase != GamePhase::TacticalPlanning {
        let q = unready_ids(r.players@);
        if q.len() == 0 {
            (StabilizerView { rounds, mode: VoteRound::Idle, queue: q, next: 0, finished: true }, None)
        } else {
            (StabilizerView { rounds, mode: VoteRound::Outside, queue: q, next: 1, finished: false }, Some(q[0]))
        }
    } else {
        let q = spent_unready_ids(r.players@);
        if q.len() == 0 {
            (StabilizerView { rounds, mode: VoteRound::Idle, queue: q, next: 0, finished: true }, None)
        } else {
            (StabilizerView { rounds, mode: VoteRound::Spent, queue: q, next: 1, finished: false }, Some(q[0]))
        }
    }
}

/// One step of the driver, given the current state `r`: within a round of votes, the
/// next player votes unless the phase has moved on (out of the non-planning phases,
/// or out of planning) or everyone in the round has voted; otherwise a new round of
/// votes begins.
pub open spec fn driver_step(m: StabilizerView, r: Roster) -> (StabilizerView, Option<Seq<char>>) {
    if m.finished {
        (m, None)
    } else {
        match m.mode {
            VoteRound::Outside => if r.phase != GamePhase::TacticalPlanning && !is_over(r.phase)
                && m.next < m.queue.len() {
                (StabilizerView { next: m.next + 1, ..m }, Some(m.queue[m.next as int]))
            } else {
                begin_round(m, r)
            },
            VoteRound::Spent => if r.phase == GamePhase::TacticalPlanning && m.next < m.queue.len() {
                (StabilizerView { next: m.next + 1, ..m }, Some(m.queue[m.next as int]))
            } else {
                begin_round(m, r)
            },
            VoteRound::Idle => begin_round(m, r),
        }
    }
}

fn collect_ids(players: &Vec<Readiness>, spent_only: bool) -> (r: Vec<String>)
    ensures
        texts(r@) == if spent_only {
            spent_unready_ids(players@)
        } else {
            unready_ids(players@)
        },
{
    let mut r: Vec<String> = Vec::new();
    let mut i: usize = 0;
    proof {
        assert(players@.take(0) =~= Seq::<Readiness>::empty());
    }
    while i < players.len()
        invariant
            0 <= i <= players@.len(),
            texts(r@) == if spent_only {
                spent_unready_ids(players@.take(i as int))
            } else {
                unready_ids(players@.take(i as int))
            },
        decreases players@.len() - i,
    {
        let p = &players[i];
        let ghost r0 = r@;
        proof {
            assert(players@.take(i + 1).drop_last() =~= players@.take(i as int));
            assert(players@.take(i + 1).last() == *p);
        }
        if !p.is_ready && (!spent_only || p.ap <= 0) {
            r.push(p.id.clone());
            proof {
                assert(r@.drop_last() =~= r0);
            }
        }
        i += 1;
        proof {
            let t = players@.take(i as int);
            if spent_only {
                assert(texts(r@) =~= spent_unready_ids(t));
            } else {
                assert(texts(r@) =~= unready_ids(t));
            }
        }
    }
    assert(players@.take(i as int) =~= players@);
    r
}

proof fn lemma_texts_index(v: Seq<String>, i: int)
    requires
        0 <= i < v.len(),
    ensures
        texts(v).len() == v.len(),
        texts(v)[i] == v[i]@,
    decreases v.len(),
{
    lemma_texts_len(v.drop_last());
    if i < v.len() - 1 {
        lemma_texts_index(v.drop_last(), i);
    }
}

impl Stabilizer {
    /// A driver about to look at a state.
    pub fn new() -> (r: Stabilizer)
        ensures
            r.well_formed(),
            r.view_of() == (StabilizerView {
                rounds: 0,
                mode: VoteRound::Idle,
                queue: Seq::empty(),
                next: 0,
                finished: false,
            }),
    {
        let r = Stabilizer { rounds: 0, mode: VoteRound::Idle, queue: Vec::new(), next: 0, finished: false };
        assert(texts(r.queue@) =~= Seq::<Seq<char>>::empty());
        r
    }

    fn begin(&mut self, r: &Roster) -> (s: DriverStep)
        requires
            old(self).well_formed(),
            !old(self).finished,
        ensures
            (final(self).view_of(), step_view(s)) == begin_round(old(self).view_of(), *r),
            final(self).well_formed(),
    {
        if self.rounds >= STABILIZE_LIMIT || r.phase == GamePhase::GameOver || r.phase
            == GamePhase::Victory {
            self.rounds = self.rounds + 1;
            self.mode = VoteRound::Idle;
            self.queue = Vec::new();
            self.next = 0;
            self.finished = true;
            assert(texts(self.queue@) =~= Seq::<Seq<char>>::empty());
            return DriverStep::Done;
        }
        self.rounds = self.rounds + 1;
        let spent = r.phase == GamePhase::TacticalPlanning;
        let q = collect_ids(&r.players, spent);
        if q.len() == 0 {
            self.mode = VoteRound::Idle;
            self.queue = q;
            self.next = 0;
            self.finished = true;
            return DriverStep::Done;
        }
        let first = q[0].clone();
        proof {
            lemma_texts_index(q@, 0);
        }
        self.mode = if spent { VoteRound::Spent } else { VoteRound::Outside };
        self.queue = q;
        self.next = 1;
        self.finished = false;
        DriverStep::Vote(first)
    }

    /// The driver's next step, given the current state (see [`driver_step`]).
    pub fn step(&mut self, r: &Roster) -> (s: DriverStep)
        requires
            old(self).well_formed(),
        ensures
            (final(self).view_of(), step_view(s)) == driver_step(old(self).view_of(), *r),
            final(self).well_formed(),
    {
        if self.finished {
            return DriverStep::Done;
        }
        proof {
            lemma_texts_len(self.queue@);
        }
        let go_on = match self.mode {
            VoteRound::Outside => r.phase != GamePhase::TacticalPlanning && r.phase
                != GamePhase::GameOver && r.phase != GamePhase::Victory && self.next < self.queue.len(),
            VoteRound::Spent => r.phase == GamePhase::TacticalPlanning && self.next < self.queue.len(),
            VoteRound::Idle => false,
        };
        if go_on {
            let id = self.queue[self.next].clone();
            proof {
                lemma_texts_index(self.queue@, self.next as int);
            }
            self.next = self.next + 1;
            DriverStep::Vote(id)
        } else {
            self.begin(r)
        }
    }
}

/// The driver always reaches a stable state: each vote it casts either moves on to
/// the next voter of the current round of votes, or starts a new round of votes, of
/// which there are at most [`STABILIZE_LIMIT`]; once done it stays done.
pub proof fn lemma_driver_progress(m: StabilizerView, r: Roster)
    requires
        m.next <= m.queue.len(),
        m.rounds <= STABILIZE_LIMIT + 1,
        !m.finished ==> m.rounds <= STABILIZE_LIMIT,
    ensures
        m.finished ==> driver_step(m, r) == (m, None::<Seq<char>>),
        driver_step(m, r).1 is Some ==> {
            let m2 = driver_step(m, r).0;
            &&& !m2.finished
            &&& m2.rounds <= STABILIZE_LIMIT
            &&& m2.next <= m2.queue.len()
            &&& (m2.rounds > m.rounds || (m2.rounds == m.rounds && m2.queue == m.queue && m2.next
                > m.next))
        },
        driver_step(m, r).1 is None ==> driver_step(m, r).0.finished,
{
}

/// Every vote the driver casts is for a player who was not ready when its round of
/// votes began: the first vote of a round goes to the first such player of the state.
pub proof fn lemma_driver_votes_unready(m: StabilizerView, r: Roster)
    requires
        !m.finished,
        m.mode == VoteRound::Idle,
    ensures
        driver_step(m, r).1 matches Some(id) ==> {
            ||| r.phase != GamePhase::TacticalPlanning && unready_ids(r.players@).len() > 0
                && id == unready_ids(r.players@)[0]
            ||| r.phase == GamePhase::TacticalPlanning && spent_unready_ids(r.players@).len() > 0
                && id == spent_unready_ids(r.players@)[0]
        },
{
}

/// The driver stops only at a stable state (planning with no player left who has no
/// AP and is not ready, or the game over), or outside planning when nobody is left to
/// vote, or when it has run out of rounds of votes.
pub proof fn lemma_driver_done_is_stable(m: StabilizerView, r: Roster)
    requires
        !m.finished,
    ensures
        driver_step(m, r).1 is None ==> {
            ||| is_over(r.phase)
            ||| r.phase == GamePhase::TacticalPlanning && spent_unready_ids(r.players@).len() == 0
            ||| r.phase != GamePhase::TacticalPlanning && unready_ids(r.players@).len() == 0
            ||| m.rounds + 1 > STABILIZE_LIMIT
        },
{
}

} // verus!
