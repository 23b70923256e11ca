//! The macro-action beam search: nodes, frontier selection and expansion plans.

use vstd::prelude::*;
use crate::model::{copy_action, ActionView, GameAction, GamePhase, GameState};
use crate::macro_actions::PlayerTask;

verus! {

broadcast use vstd::string::group_string_axioms;

/// A state of the search with the actions that led to it and its evaluation.
#[derive(Debug, Clone)]
pub struct StateNode {
    pub state: GameState,
    /// (player id, action) pairs, in order.
    pub path: Vec<(String, GameAction)>,
    pub score: i32,
    pub depth: usize,
}

impl StateNode {
    /// The root node of a search from `state`.
    pub fn new(state: GameState) -> (r: StateNode)
        ensures
            r.state == state,
            r.path@ == Seq::<(String, GameAction)>::empty(),
            r.score == 0,
            r.depth == 0,
    {
        StateNode { state, path: Vec::new(), score: 0, depth: 0 }
    }
}

/// Progress of a running macro-action search, as shown to the user.
pub struct SearchStatus {
    pub best_node: Option<StateNode>,
    pub best_score: i32,
    pub nodes_visited: usize,
    pub depth: usize,
    pub finished: bool,
    pub current_frontier_size: usize,
}

impl SearchStatus {
    /// The status before the search starts: nothing found yet, one node in the frontier.
    pub fn new(_initial_state: GameState) -> (r: SearchStatus)
        ensures
            r.best_node is None,
            r.best_score == i32::MIN,
            r.nodes_visited == 0,
            r.depth == 0,
            !r.finished,
            r.current_frontier_size == 1,
    {
        SearchStatus {
            best_node: None,
            best_score: i32::MIN,
            nodes_visited: 0,
            depth: 0,
            finished: false,
            current_frontier_size: 1,
        }
    }
}

/// The nodes of `s` whose game is not lost, in order.
pub open spec fn alive(s: Seq<StateNode>) -> Seq<StateNode>
    decreases s.len(),
{
    if s.len() == 0 {
        Seq::empty()
    } else {
        (if s[0].state.phase != GamePhase::GameOver {
            seq![s[0]]
        } else {
            Seq::empty()
        }) + alive(s.drop_first())
    }
}

/// `x` inserted into `r` just before the first node that does not score higher.
pub open spec fn insert_by_score(x: StateNode, r: Seq<StateNode>) -> Seq<StateNode>
    decreases r.len(),
{
    if r.len() == 0 || r[0].score <= x.score {
        seq![x] + r
    } else {
        seq![r[0]] + insert_by_score(x, r.drop_first())
    }
}

/// `s` ordered by descending score, nodes of equal score keeping their order (a
/// stable sort).
pub open spec fn sort_by_score(s: Seq<StateNode>) -> Seq<StateNode>
    decreases s.len(),
{
    if s.len() == 0 {
        Seq::empty()
    } else {
        insert_by_score(s[0], sort_by_score(s.drop_first()))
    }
}

/// The next frontier: the candidates that have not lost, best score first (stable),
/// at most `width` of them.
pub open spec fn frontier_spec(candidates: Seq<StateNode>, width: nat) -> Seq<StateNode> {
    let sorted = sort_by_score(alive(candidates));
    if width <= sorted.len() {
        sorted.take(width as int)
    } else {
        sorted
    }
}

proof fn lemma_insert_at(x: StateNode, r: Seq<StateNode>, pos: int)
    requires
        0 <= pos <= r.len(),
        forall|j: int| 0 <= j < pos ==> r[j].score > x.score,
        pos == r.len() || r[pos].score <= x.score,
    ensures
        insert_by_score(x, r) == r.insert(pos, x),
    decreases pos,
{
    if pos == 0 {
        assert(seq![x] + r =~= r.insert(0, x));
    } else {
        lemma_insert_at(x, r.drop_first(), pos - 1);
        assert(seq![r[0]] + r.drop_first().insert(pos - 1, x) =~= r.insert(pos, x));
    }
}

/// Chooses the next frontier from the expanded `candidates` (see [`frontier_spec`]).
pub fn select_frontier(candidates: Vec<StateNode>, width: usize) -> (r: Vec<StateNode>)
    ensures
        r@ == frontier_spec(candidates@, width as nat),
{
    let ghost all = candidates@;
    let mut rest = candidates;
    let mut sorted: Vec<StateNode> = Vec::new();
    proof {
        assert(all.skip(all.len() as int) =~= Seq::<StateNode>::empty());
        assert(rest@ =~= all.take(all.len() as int));
    }
    while rest.len() > 0
        invariant
            rest@ == all.take(rest@.len() as int),
            rest@.len() <= all.len(),
            sorted@ == sort_by_score(alive(all.skip(rest@.len() as int))),
        decreases rest@.len(),
    {
        let ghost i = rest@.len() as int;
        let x = match rest.pop() {
            Some(x) => x,
            None => {
                proof {
                    assert(false);
                }
                return sorted;
            },
        };
        proof {
            assert(x == all[i - 1]);
            assert(rest@ =~= all.take(i - 1));
            let suffix = all.skip(i - 1);
            assert(suffix[0] == x);
            assert(suffix.drop_first() =~= all.skip(i));
        }
        if x.state.phase != GamePhase::GameOver {
            let mut pos: usize = 0;
            while pos < sorted.len() && sorted[pos].score > x.score
                invariant
                    0 <= pos <= sorted@.len(),
                    forall|j: int| 0 <= j < pos ==> sorted@[j].score > x.score,
                decreases sorted@.len() - pos,
            {
                pos += 1;
            }
            proof {
                lemma_insert_at(x, sorted@, pos as int);
                let suffix = all.skip(i - 1);
                assert(alive(suffix) =~= seq![x] + alive(all.skip(i)));
                assert(alive(suffix)[0] == x);
                assert(alive(suffix).drop_first() =~= alive(all.skip(i)));
            }
            sorted.insert(pos, x);
        } else {
            proof {
                let suffix = all.skip(i - 1);
                assert(alive(suffix) =~= alive(all.skip(i)));
            }
        }
    }
    proof {
        assert(all.skip(0) =~= all);
    }
    sorted.truncate(width);
    sorted
}

/// The index of the first won game in `frontier`, if any.
pub fn first_victory(frontier: &Vec<StateNode>) -> (r: Option<usize>)
    ensures
        match r {
            Some(i) => i < frontier@.len() && frontier@[i as int].state.phase == GamePhase::Victory
                && forall|j: int|
                0 <= j < i ==> frontier@[j].state.phase != GamePhase::Victory,
            None => forall|j: int|
                0 <= j < frontier@.len() ==> frontier@[j].state.phase != GamePhase::Victory,
        },
{
    let mut i: usize = 0;
    while i < frontier.len()
        invariant
            0 <= i <= frontier@.len(),
            forall|j: int| 0 <= j < i ==> frontier@[j].state.phase != GamePhase::Victory,
        decreases frontier@.len() - i,
    {
        if frontier[i].state.phase == GamePhase::Victory {
            return Some(i);
        }
        i += 1;
    }
    None
}

/// One step of an expansion plan: who acts, what they do, and whether the action is
/// applied to the game (`false`: it is only written to the log).
pub struct PlanStep {
    pub player: String,
    pub action: GameAction,
    pub apply: bool,
}

/// The value of a plan step.
pub open spec fn step_view(p: PlanStep) -> (Seq<char>, ActionView, bool) {
    (p.player@, p.action@, p.apply)
}

/// The values of a plan.
pub open spec fn plan_view(ps: Seq<PlanStep>) -> Seq<(Seq<char>, ActionView, bool)>
    decreases ps.len(),
{
    if ps.len() == 0 {
        Seq::empty()
    } else {
        plan_view(ps.drop_last()).push(step_view(ps.last()))
    }
}

/// A step in which `pid` applies `a`.
pub open spec fn applied(pid: Seq<char>, a: GameAction) -> (Seq<char>, ActionView, bool) {
    (pid, a@, true)
}

/// Everyone votes ready, in the order of `pids`.
pub open spec fn votes_spec(pids: Seq<String>) -> Seq<(Seq<char>, ActionView, bool)>
    decreases pids.len(),
{
    if pids.len() == 0 {
        Seq::empty()
    } else {
        votes_spec(pids.drop_last()).push((pids.last()@, ActionView::VoteReady { ready: true }, true))
    }
}

/// Player `pid` applies each action of `acts`, in order.
pub open spec fn applied_all(pid: Seq<char>, acts: Seq<GameAction>) -> Seq<(Seq<char>, ActionView, bool)>
    decreases acts.len(),
{
    if acts.len() == 0 {
        Seq::empty()
    } else {
        applied_all(pid, acts.drop_last()).push(applied(pid, acts.last()))
    }
}

/// The steps for player `pid` following task `t`: the task's description logged as a
/// `[MACRO]` chat line, then the task's actions applied in order.
pub open spec fn task_steps(pid: Seq<char>, t: PlayerTask) -> Seq<(Seq<char>, ActionView, bool)> {
    seq![(pid, ActionView::Chat { message: "[MACRO] "@ + t.description@ }, false)]
        + applied_all(pid, t.actions@)
}

/// The steps of every player's task in turn: the `i`-th task belongs to `pids[i]`.
pub open spec fn combo_steps(pids: Seq<String>, combo: Seq<PlayerTask>) -> Seq<(Seq<char>, ActionView, bool)>
    decreases combo.len(),
{
    if combo.len() == 0 {
        Seq::empty()
    } else {
        combo_steps(pids, combo.drop_last()) + task_steps(pids[combo.len() - 1]@, combo.last())
    }
}

/// The plan for one combination of tasks during planning: every player's task, then
/// everyone votes ready.
pub open spec fn macro_plan_spec(pids: Seq<String>, combo: Seq<PlayerTask>) -> Seq<(Seq<char>, ActionView, bool)> {
    combo_steps(pids, combo) + votes_spec(pids)
}

proof fn lemma_applied_all_index(pid: Seq<char>, acts: Seq<GameAction>, i: int)
    requires
        0 <= i < acts.len(),
    ensures
        applied_all(pid, acts).len() == acts.len(),
        applied_all(pid, acts)[i] == applied(pid, acts[i]),
    decreases acts.len(),
{
    if i < acts.len() - 1 {
        lemma_applied_all_index(pid, acts.drop_last(), i);
    } else {
        lemma_applied_all_len(pid, acts.drop_last());
    }
}

proof fn lemma_applied_all_len(pid: Seq<char>, acts: Seq<GameAction>)
    ensures
        applied_all(pid, acts).len() == acts.len(),
    decreases acts.len(),
{
    if acts.len() > 0 {
        lemma_applied_all_len(pid, acts.drop_last());
    }
}

proof fn lemma_plan_view_index(ps: Seq<PlanStep>, i: int)
    requires
        0 <= i < ps.len(),
    ensures
        plan_view(ps).len() == ps.len(),
        plan_view(ps)[i] == step_view(ps[i]),
    decreases ps.len(),
{
    if i < ps.len() - 1 {
        lemma_plan_view_index(ps.drop_last(), i);
    } else {
        lemma_plan_view_len(ps.drop_last());
    }
}

proof fn lemma_plan_view_len(ps: Seq<PlanStep>)
    ensures
        plan_view(ps).len() == ps.len(),
    decreases ps.len(),
{
    if ps.len() > 0 {
        lemma_plan_view_len(ps.drop_last());
    }
}

/// The plan outside planning: everyone votes ready, in the order of `player_ids`.
pub fn vote_plan(player_ids: &Vec<String>) -> (r: Vec<PlanStep>)
    ensures
        plan_view(r@) == votes_spec(player_ids@),
{
    let mut r: Vec<PlanStep> = Vec::new();
    let mut i: usize = 0;
    while i < player_ids.len()
        invariant
            0 <= i <= player_ids@.len(),
            plan_view(r@) == votes_spec(player_ids@.take(i as int)),
        decreases player_ids@.len() - i,
    {
        let ghost r0 = r@;
        r.push(PlanStep {
            player: player_ids[i].clone(),
            action: GameAction::VoteReady { ready: true },
            apply: true,
        });
        i += 1;
        proof {
            let q = player_ids@.take(i as int);
            assert(q.drop_last() =~= player_ids@.take(i - 1));
            assert(r@.drop_last() =~= r0);
        }
    }
    assert(player_ids@.take(i as int) =~= player_ids@);
    r
}

fn push_task_steps(r: &mut Vec<PlanStep>, pid: &String, t: &PlayerTask)
    ensures
        plan_view(final(r)@) == plan_view(old(r)@) + task_steps(pid@, *t),
{
    let ghost before = plan_view(r@);
    let mut msg = String::from_str("[MACRO] ");
    msg.append(t.description.as_str());
    let ghost r0 = r@;
    r.push(PlanStep { player: pid.clone(), action: GameAction::Chat { message: msg }, apply: false });
    let mut j: usize = 0;
    proof {
        assert(r@.drop_last() =~= r0);
        assert(task_steps(pid@, *t).take(1) =~= seq![task_steps(pid@, *t)[0]]);
        assert(plan_view(r@) =~= before + task_steps(pid@, *t).take(1));
    }
    while j < t.actions.len()
        invariant
            0 <= j <= t.actions@.len(),
            plan_view(r@) == before + task_steps(pid@, *t).take(1 + j),
        decreases t.actions@.len() - j,
    {
        let a = copy_action(&t.actions[j]);
        let ghost r1 = r@;
        r.push(PlanStep { player: pid.clone(), action: a, apply: true });
        j += 1;
        proof {
            assert(r@.drop_last() =~= r1);
            lemma_applied_all_index(pid@, t.actions@, j - 1);
            assert(task_steps(pid@, *t)[j as int] == applied(pid@, t.actions@[j - 1]));
            assert(plan_view(r@) =~= before + task_steps(pid@, *t).take(1 + j));
        }
    }
    proof {
        lemma_applied_all_len(pid@, t.actions@);
        assert(task_steps(pid@, *t).take(1 + j) =~= task_steps(pid@, *t));
    }
}

/// The plan for one combination of tasks during planning (see [`macro_plan_spec`]):
/// `combo[i]` is the task of `player_ids[i]`.
pub fn macro_plan(player_ids: &Vec<String>, combo: &Vec<PlayerTask>) -> (r: Vec<PlanStep>)
    requires
        combo@.len() <= player_ids@.len(),
    ensures
        plan_view(r@) == macro_plan_spec(player_ids@, combo@),
{
    let mut r: Vec<PlanStep> = Vec::new();
    let mut i: usize = 0;
    proof {
        assert(combo@.take(0) =~= Seq::<PlayerTask>::empty());
        assert(plan_view(r@) =~= Seq::<(Seq<char>, ActionView, bool)>::empty());
    }
    while i < combo.len()
        invariant
            combo@.len() <= player_ids@.len(),
            0 <= i <= combo@.len(),
            plan_view(r@) == combo_steps(player_ids@, combo@.take(i as int)),
        decreases combo@.len() - i,
    {
        push_task_steps(&mut r, &player_ids[i], &combo[i]);
        proof {
            let c = combo@.take(i + 1);
            assert(c.drop_last() =~= combo@.take(i as int));
            assert(c.last() == combo@[i as int]);
            assert(c.len() - 1 == i);
        }
        i += 1;
    }
    assert(combo@.take(i as int) =~= combo@);
    let ghost mid = plan_view(r@);
    let votes = vote_plan(player_ids);
    let mut k: usize = 0;
    while k < votes.len()
        invariant
            0 <= k <= votes@.len(),
            plan_view(r@) == mid + plan_view(votes@).take(k as int),
        decreases votes@.len() - k,
    {
        let ghost r1 = r@;
        r.push(PlanStep {
            player: votes[k].player.clone(),
            action: copy_action(&votes[k].action),
            apply: votes[k].apply,
        });
        k += 1;
        proof {
            assert(r@.drop_last() =~= r1);
            lemma_plan_view_index(votes@, k - 1);
            assert(plan_view(r@) =~= mid + plan_view(votes@).take(k as int));
        }
    }
    proof {
        lemma_plan_view_len(votes@);
        assert(plan_view(votes@).take(k as int) =~= plan_view(votes@));
    }
    r
}

proof fn lemma_insert_props(x: StateNode, r: Seq<StateNode>)
    requires
        forall|i: int, j: int| 0 <= i < j < r.len() ==> r[i].score >= r[j].score,
    ensures
        insert_by_score(x, r).len() == r.len() + 1,
        forall|i: int, j: int|
            0 <= i < j < insert_by_score(x, r).len() ==> insert_by_score(x, r)[i].score
                >= insert_by_score(x, r)[j].score,
        forall|i: int|
            0 <= i < insert_by_score(x, r).len() ==> insert_by_score(x, r)[i] == x || r.contains(
                insert_by_score(x, r)[i],
            ),
    decreases r.len(),
{
    if r.len() > 0 && r[0].score > x.score {
        let t = r.drop_first();
        lemma_insert_props(x, t);
        let q = insert_by_score(x, t);
        let res = seq![r[0]] + q;
        assert(insert_by_score(x, r) == res);
        assert forall|i: int| 0 <= i < res.len() implies res[i] == x || r.contains(res[i]) by {
            if i > 0 {
                assert(res[i] == q[i - 1]);
                if q[i - 1] != x {
                    let k = choose|k: int| 0 <= k < t.len() && t[k] == q[i - 1];
                    assert(r[k + 1] == t[k]);
                }
            } else {
                assert(r[0] == res[0]);
            }
        }
        assert forall|i: int, j: int| 0 <= i < j < res.len() implies res[i].score >= res[j].score by {
            if i == 0 {
                if q[j - 1] == x {
                } else {
                    let k = choose|k: int| 0 <= k < t.len() && t[k] == q[j - 1];
                    assert(r[k + 1] == t[k]);
                }
            } else {
                assert(res[i] == q[i - 1]);
                assert(res[j] == q[j - 1]);
            }
        }
    } else {
        let res = seq![x] + r;
        assert(insert_by_score(x, r) == res);
        assert forall|i: int| 0 <= i < res.len() implies res[i] == x || r.contains(res[i]) by {
            if i > 0 {
                assert(res[i] == r[i - 1]);
            }
        }
        assert forall|i: int, j: int| 0 <= i < j < res.len() implies res[i].score >= res[j].score by {
            if i > 0 {
                assert(res[i] == r[i - 1]);
                assert(res[j] == r[j - 1]);
            } else {
                assert(res[j] == r[j - 1]);
            }
        }
    }
}

proof fn lemma_sort_props(s: Seq<StateNode>)
    ensures
        sort_by_score(s).len() == s.len(),
        forall|i: int, j: int|
            0 <= i < j < sort_by_score(s).len() ==> sort_by_score(s)[i].score >= sort_by_score(s)[j].score,
        forall|i: int| 0 <= i < sort_by_score(s).len() ==> s.contains(sort_by_score(s)[i]),
    decreases s.len(),
{
    if s.len() > 0 {
        let t = s.drop_first();
        lemma_sort_props(t);
        lemma_insert_props(s[0], sort_by_score(t));
        let res = sort_by_score(s);
        assert forall|i: int| 0 <= i < res.len() implies s.contains(res[i]) by {
            if res[i] == s[0] {
                assert(s[0] == res[i]);
            } else {
                let k = choose|k: int| 0 <= k < sort_by_score(t).len() && sort_by_score(t)[k] == res[i];
                let k2 = choose|k2: int| 0 <= k2 < t.len() && t[k2] == sort_by_score(t)[k];
                assert(s[k2 + 1] == t[k2]);
            }
        }
    }
}

proof fn lemma_alive_props(s: Seq<StateNode>)
    ensures
        alive(s).len() <= s.len(),
        forall|i: int| 0 <= i < alive(s).len() ==> alive(s)[i].state.phase != GamePhase::GameOver
            && s.contains(alive(s)[i]),
        forall|i: int| 0 <= i < s.len() && s[i].state.phase != GamePhase::GameOver ==> alive(s).contains(s[i]),
    decreases s.len(),
{
    if s.len() > 0 {
        let t = s.drop_first();
        lemma_alive_props(t);
        let head: Seq<StateNode> = if s[0].state.phase != GamePhase::GameOver {
            seq![s[0]]
        } else {
            Seq::empty()
        };
        let a = alive(s);
        assert(a == head + alive(t));
        assert forall|i: int| 0 <= i < a.len() implies a[i].state.phase != GamePhase::GameOver
            && s.contains(a[i]) by {
            if i < head.len() {
                assert(a[i] == s[0]);
            } else {
                assert(a[i] == alive(t)[i - head.len()]);
                let k = choose|k: int| 0 <= k < t.len() && t[k] == alive(t)[i - head.len()];
                assert(s[k + 1] == t[k]);
            }
        }
        assert forall|i: int| 0 <= i < s.len() && s[i].state.phase != GamePhase::GameOver implies a.contains(s[i]) by {
            if i == 0 {
                assert(a[0] == s[0]);
            } else {
                assert(s[i] == t[i - 1]);
                let k = choose|k: int| 0 <= k < alive(t).len() && alive(t)[k] == t[i - 1];
                assert(a[k + head.len()] == alive(t)[k]);
            }
        }
    }
}

/// The next frontier is ordered best score first, holds no lost game, holds only
/// candidates, and holds `width` of them, or every candidate that has not lost when
/// there are fewer.
pub proof fn lemma_frontier(candidates: Seq<StateNode>, width: nat)
    ensures
        ({
            let f = frontier_spec(candidates, width);
            &&& f.len() == if width <= alive(candidates).len() {
                width as int
            } else {
                alive(candidates).len() as int
            }
            &&& forall|i: int, j: int| 0 <= i < j < f.len() ==> f[i].score >= f[j].score
            &&& forall|i: int| 0 <= i < f.len() ==> f[i].state.phase != GamePhase::GameOver
                && candidates.contains(f[i])
        }),
{
    let a = alive(candidates);
    lemma_alive_props(candidates);
    lemma_sort_props(a);
    let sorted = sort_by_score(a);
    let f = frontier_spec(candidates, width);
    assert forall|i: int| 0 <= i < f.len() implies f[i].state.phase != GamePhase::GameOver
        && candidates.contains(f[i]) by {
        assert(f[i] == sorted[i]);
        let k = choose|k: int| 0 <= k < a.len() && a[k] == sorted[i];
    }
    assert forall|i: int, j: int| 0 <= i < j < f.len() implies f[i].score >= f[j].score by {
        assert(f[i] == sorted[i]);
        assert(f[j] == sorted[j]);
    }
}

} // verus!
