//! Search nodes, the actions a search considers, and the history of a node.

use vstd::prelude::*;
use std::collections::VecDeque;
use std::sync::Arc;
use crate::model::{copy_action, ActionView, GameAction, GamePhase, GameState, Player};

verus! {

broadcast use vstd::string::group_string_axioms;

/// A node of a search over states of type `S`, scored by values of type `D`: the state,
/// the node it was reached from and by which action, its score, the state's
/// signature, and the number of actions from the root.
pub struct SearchNode<S, D> {
    pub state: S,
    pub parent: Option<Arc<SearchNode<S, D>>>,
    pub last_action: Option<(String, GameAction)>,
    pub score: D,
    pub signature: u64,
    pub history_len: usize,
}

/// Number of nodes from `n` up to the root.
pub open spec fn chain_len<S, D>(n: SearchNode<S, D>) -> nat
    decreases n,
{
    match n.parent {
        None => 1,
        Some(p) => 1 + chain_len(*p),
    }
}

/// The actions that led from the root to `n`, oldest first, each as (player, action).
pub open spec fn history<S, D>(n: SearchNode<S, D>) -> Seq<(Seq<char>, ActionView)>
    decreases n,
{
    match n.parent {
        None => Seq::empty(),
        Some(p) => history(*p) + match n.last_action {
            Some(a) => seq![(a.0@, a.1@)],
            None => Seq::empty(),
        },
    }
}

/// The values of a list of (player, action) pairs.
pub open spec fn pairs_view(v: Seq<(String, GameAction)>) -> Seq<(Seq<char>, ActionView)>
    decreases v.len(),
{
    if v.len() == 0 {
        Seq::empty()
    } else {
        pairs_view(v.drop_last()).push((v.last().0@, v.last().1@))
    }
}

/// The last `n` entries of `h` (all of them, if there are no more than `n`).
pub open spec fn last_n<T>(h: Seq<T>, n: nat) -> Seq<T> {
    if h.len() <= n {
        h
    } else {
        h.skip(h.len() - n)
    }
}

proof fn lemma_pairs_view_len(v: Seq<(String, GameAction)>)
    ensures
        pairs_view(v).len() == v.len(),
    decreases v.len(),
{
    if v.len() > 0 {
        lemma_pairs_view_len(v.drop_last());
    }
}

proof fn lemma_pairs_view_index(v: Seq<(String, GameAction)>, i: int)
    requires
        0 <= i < v.len(),
    ensures
        pairs_view(v)[i] == (v[i].0@, v[i].1@),
    decreases v.len(),
{
    lemma_pairs_view_len(v.drop_last());
    if i < v.len() - 1 {
        lemma_pairs_view_index(v.drop_last(), i);
    }
}

/// Moves the entries of `rev` (newest first) into a list oldest first.
fn unreverse(rev: Vec<(String, GameAction)>, Ghost(tail): Ghost<Seq<(Seq<char>, ActionView)>>) -> (r: Vec<(String, GameAction)>)
    requires
        rev@.len() == tail.len(),
        forall|i: int|
            #![trigger rev@[i]]
            0 <= i < rev@.len() ==> (rev@[i].0@, rev@[i].1@) == tail[tail.len() - 1 - i],
    ensures
        pairs_view(r@) == tail,
{
    let mut rest = rev;
    let mut out: Vec<(String, GameAction)> = Vec::new();
    let ghost n = tail.len();
    proof {
        assert(tail.take(0) =~= Seq::<(Seq<char>, ActionView)>::empty());
    }
    while rest.len() > 0
        invariant
            n == tail.len(),
            rest@.len() + out@.len() == n,
            forall|i: int|
                #![trigger rest@[i]]
                0 <= i < rest@.len() ==> (rest@[i].0@, rest@[i].1@) == tail[n - 1 - i],
            pairs_view(out@) == tail.take(out@.len() as int),
        decreases rest@.len(),
    {
        let ghost k = out@.len() as int;
        let ghost last_i = rest@.len() - 1;
        let e = match rest.pop() {
            Some(e) => e,
            None => {
                proof {
                    assert(false);
                }
                return out;
            },
        };
        proof {
            assert((e.0@, e.1@) == tail[n - 1 - last_i]);
            assert(n - 1 - last_i == k);
        }
        let ghost o = out@;
        out.push(e);
        proof {
            assert(out@.drop_last() =~= o);
            assert(tail.take(k + 1) =~= tail.take(k).push(tail[k]));
        }
    }
    proof {
        assert(tail.take(n as int) =~= tail);
    }
    out
}

impl<S, D> SearchNode<S, D> {
    /// The actions from the root to this node, oldest first.
    pub fn get_history(&self) -> (r: Vec<(String, GameAction)>)
        ensures
            pairs_view(r@) == history(*self),
    {
        let mut rev: Vec<(String, GameAction)> = Vec::new();
        let mut current: &SearchNode<S, D> = self;
        let ghost total = history(*self);
        proof {
            assert(total.skip(total.len() as int) =~= Seq::<(Seq<char>, ActionView)>::empty());
        }
        loop
            invariant
                total == history(*self),
                history(*current).len() + rev@.len() == total.len(),
                total.take(history(*current).len() as int) == history(*current),
                forall|i: int|
                    #![trigger rev@[i]]
                    0 <= i < rev@.len() ==> (rev@[i].0@, rev@[i].1@) == total[total.len() - 1 - i],
            ensures
                total == history(*self),
                rev@.len() == total.len(),
                forall|i: int|
                    #![trigger rev@[i]]
                    0 <= i < rev@.len() ==> (rev@[i].0@, rev@[i].1@) == total[total.len() - 1 - i],
            decreases chain_len(*current),
        {
            match &current.parent {
                None => {
                    assert(history(*current) =~= Seq::<(Seq<char>, ActionView)>::empty());
                    break;
                },
                Some(parent) => {
                    let p: &SearchNode<S, D> = &**parent;
                    let ghost hp = history(*p);
                    proof {
                        assert(total.take(hp.len() as int) =~= hp);
                    }
                    match &current.last_action {
                        Some(a) => {
                            let ghost r0 = rev@;
                            rev.push((a.0.clone(), copy_action(&a.1)));
                            proof {
                                let hc = history(*current);
                                assert(hc == hp + seq![(a.0@, a.1@)]);
                                assert(hc[hp.len() as int] == (a.0@, a.1@));
                                assert(total.take(hc.len() as int)[hp.len() as int] == total[hp.len() as int]);
                            }
                        },
                        None => {
                            proof {
                                assert(history(*current) =~= hp);
                            }
                        },
                    }
                    current = p;
                },
            }
        }
        unreverse(rev, Ghost(total))
    }

    /// The last `n` actions that led to this node, oldest first.
    pub fn get_recent_history(&self, n: usize) -> (r: Vec<(String, GameAction)>)
        ensures
            pairs_view(r@) == last_n(history(*self), n as nat),
    {
        let mut rev: Vec<(String, GameAction)> = Vec::new();
        let mut current: &SearchNode<S, D> = self;
        let ghost total = history(*self);
        loop
            invariant
                total == history(*self),
                rev@.len() <= n,
                history(*current).len() + rev@.len() == total.len(),
                total.take(history(*current).len() as int) == history(*current),
                forall|i: int|
                    #![trigger rev@[i]]
                    0 <= i < rev@.len() ==> (rev@[i].0@, rev@[i].1@) == total[total.len() - 1 - i],
            ensures
                total == history(*self),
                rev@.len() <= n,
                rev@.len() <= total.len(),
                rev@.len() == total.len() || rev@.len() == n,
                forall|i: int|
                    #![trigger rev@[i]]
                    0 <= i < rev@.len() ==> (rev@[i].0@, rev@[i].1@) == total[total.len() - 1 - i],
            decreases chain_len(*current),
        {
            match &current.parent {
                None => {
                    assert(history(*current) =~= Seq::<(Seq<char>, ActionView)>::empty());
                    break;
                },
                Some(parent) => {
                    if rev.len() >= n {
                        break;
                    }
                    let p: &SearchNode<S, D> = &**parent;
                    let ghost hp = history(*p);
                    proof {
                        assert(total.take(hp.len() as int) =~= hp);
                    }
                    match &current.last_action {
                        Some(a) => {
                            rev.push((a.0.clone(), copy_action(&a.1)));
                            proof {
                                let hc = history(*current);
                                assert(hc == hp + seq![(a.0@, a.1@)]);
                                assert(hc[hp.len() as int] == (a.0@, a.1@));
                                assert(total.take(hc.len() as int)[hp.len() as int] == total[hp.len() as int]);
                            }
                        },
                        None => {
                            proof {
                                assert(history(*current) =~= hp);
                            }
                        },
                    }
                    current = p;
                },
            }
        }
        let ghost tail = total.skip(total.len() - rev@.len());
        proof {
            assert forall|i: int| #![trigger rev@[i]] 0 <= i < rev@.len() implies (rev@[i].0@, rev@[i].1@)
                == tail[tail.len() - 1 - i] by {}
            if total.len() <= n {
                assert(tail =~= total);
            } else {
                assert(rev@.len() == n);
            }
        }
        unreverse(rev, Ghost(tail))
    }
}

/// Whether a search considers action `a`: chat, undo and ready votes are left to
/// the game driver.
pub open spec fn is_search_action(a: ActionView) -> bool {
    match a {
        ActionView::Chat { .. } | ActionView::Undo { .. } | ActionView::VoteReady { .. } => false,
        _ => true,
    }
}

/// The player who acts next: the first who is not ready and has AP left.
pub open spec fn active_player_spec(ps: Seq<Player>) -> Option<int>
    decreases ps.len(),
{
    if ps.len() == 0 {
        None
    } else if !ps[0].is_ready && ps[0].ap > 0 {
        Some(0)
    } else {
        match active_player_spec(ps.drop_first()) {
            Some(i) => Some(i + 1),
            None => None,
        }
    }
}

/// The index of the player who acts next (see [`active_player_spec`]).
pub fn active_player(state: &GameState) -> (r: Option<usize>)
    ensures
        match r {
            Some(k) => active_player_spec(state.players@) == Some(k as int) && k < state.players@.len(),
            None => active_player_spec(state.players@) is None,
        },
{
    let mut i: usize = 0;
    assert(state.players@.skip(0) =~= state.players@);
    while i < state.players.len()
        invariant
            0 <= i <= state.players@.len(),
            active_player_spec(state.players@) == match active_player_spec(state.players@.skip(i as int)) {
                Some(j) => Some(j + i),
                None => None::<int>,
            },
        decreases state.players@.len() - i,
    {
        proof {
            assert(state.players@.skip(i as int).drop_first() =~= state.players@.skip(i + 1));
            assert(state.players@.skip(i as int)[0] == state.players@[i as int]);
        }
        if !state.players[i].is_ready && state.players[i].ap > 0 {
            return Some(i);
        }
        i += 1;
    }
    None
}

/// The entries of `legal` that a search considers, each paired with `pid`.
pub open spec fn search_actions_spec(pid: Seq<char>, legal: Seq<GameAction>) -> Seq<(Seq<char>, ActionView)>
    decreases legal.len(),
{
    if legal.len() == 0 {
        Seq::empty()
    } else {
        search_actions_spec(pid, legal.drop_last()) + if is_search_action(legal.last()@) {
            seq![(pid, legal.last()@)]
        } else {
            Seq::empty()
        }
    }
}

/// The moves a search may make from `state`: the game's legal actions `legal` for the
/// player who acts next, without chat, undo and ready votes; none if nobody is left to
/// act.
pub fn get_valid_actions(state: &GameState, legal: &Vec<GameAction>) -> (r: Vec<(String, GameAction)>)
    ensures
        pairs_view(r@) == match active_player_spec(state.players@) {
            Some(i) => search_actions_spec(state.players@[i].id@, legal@),
            None => Seq::empty(),
        },
{
    let mut valid: Vec<(String, GameAction)> = Vec::new();
    assert(pairs_view(valid@) =~= Seq::<(Seq<char>, ActionView)>::empty());
    match active_player(state) {
        None => valid,
        Some(pi) => {
            proof {
                lemma_active_in_range(state.players@);
            }
            let pid = &state.players[pi].id;
            proof {
                let i = active_player_spec(state.players@)->0;
                assert(i == pi as int);
                assert(state.players@[i].id == *pid);
            }
            let mut j: usize = 0;
            assert(legal@.take(0) =~= Seq::<GameAction>::empty());
            while j < legal.len()
                invariant
                    0 <= j <= legal@.len(),
                    active_player_spec(state.players@) is Some,
                    state.players@[active_player_spec(state.players@)->0].id == *pid,
                    pairs_view(valid@) == search_actions_spec(pid@, legal@.take(j as int)),
                decreases legal@.len() - j,
            {
                let a = &legal[j];
                let keep = match a {
                    GameAction::Chat { .. } | GameAction::Undo { .. } | GameAction::VoteReady { .. } => false,
                    _ => true,
                };
                proof {
                    assert(legal@.take(j + 1).drop_last() =~= legal@.take(j as int));
                    assert(legal@.take(j + 1).last() == *a);
                }
                if keep {
                    let ghost v0 = valid@;
                    valid.push((pid.clone(), copy_action(a)));
                    proof {
                        assert(valid@.drop_last() =~= v0);
                    }
                }
                j += 1;
            }
            assert(legal@.take(j as int) =~= legal@);
            valid
        },
    }
}

proof fn lemma_active_in_range(ps: Seq<Player>)
    ensures
        active_player_spec(ps) matches Some(i) ==> 0 <= i < ps.len(),
    decreases ps.len(),
{
    if ps.len() > 0 {
        lemma_active_in_range(ps.drop_first());
    }
}

/// What happened when one node was expanded, kept for diagnosing a search that dies.
pub struct ExpansionLog {
    pub step: usize,
    pub phase: GamePhase,
    pub active_player: Option<String>,
    pub ap: i32,
    pub actions_generated: Vec<GameAction>,
    pub outcomes: Vec<String>,
}

/// The number of expansions a [`DebugContext`] keeps.
pub const DEBUG_LOG_CAPACITY: usize = 50;

/// The most recent expansions, oldest first.
pub struct DebugContext {
    pub logs: VecDeque<ExpansionLog>,
}

/// The log after recording `entry` in `logs`: the oldest entry goes once the log holds
/// [`DEBUG_LOG_CAPACITY`] entries.
pub open spec fn logged(logs: Seq<ExpansionLog>, entry: ExpansionLog) -> Seq<ExpansionLog> {
    if logs.len() >= DEBUG_LOG_CAPACITY {
        logs.drop_first().push(entry)
    } else {
        logs.push(entry)
    }
}

impl DebugContext {
    /// An empty log.
    pub fn new() -> (r: DebugContext)
        ensures
            r.logs@ == Seq::<ExpansionLog>::empty(),
    {
        DebugContext { logs: VecDeque::with_capacity(DEBUG_LOG_CAPACITY) }
    }

    /// Records `entry`, dropping the oldest entry when the log is full.
    pub fn log(&mut self, entry: ExpansionLog)
        ensures
            final(self).logs@ == logged(old(self).logs@, entry),
    {
        if self.logs.len() >= DEBUG_LOG_CAPACITY {
            let _ = self.logs.pop_front();
        }
        self.logs.push_back(entry);
        proof {
            if old(self).logs@.len() >= DEBUG_LOG_CAPACITY {
                assert(old(self).logs@.subrange(1, old(self).logs@.len() as int) =~= old(self).logs@.drop_first());
            }
        }
    }
}

impl Default for DebugContext {
    /// An empty log.
    fn default() -> (r: Self)
        ensures
            r.logs@ == Seq::<ExpansionLog>::empty(),
    {
        DebugContext::new()
    }
}

/// A log never grows past its capacity, and the entry just recorded is its newest.
pub proof fn lemma_log_bounded(logs: Seq<ExpansionLog>, entry: ExpansionLog)
    requires
        logs.len() <= DEBUG_LOG_CAPACITY,
    ensures
        logged(logs, entry).len() <= DEBUG_LOG_CAPACITY,
        logged(logs, entry).last() == entry,
        logs.len() < DEBUG_LOG_CAPACITY ==> logged(logs, entry).drop_last() == logs,
{
}

} // verus!

verus! {

/// The state a signature hash starts from.
pub const SIGNATURE_SEED: u64 = 0xcbf29ce484222325;

/// The multiplier folded in after each byte.
pub const SIGNATURE_PRIME: u64 = 0x100000001b3;

/// One byte folded into a running hash: xor the byte in, then multiply by
/// [`SIGNATURE_PRIME`], wrapping at 2^64.
pub open spec fn mix_byte(h: u64, b: u8) -> u64 {
    (((h ^ (b as u64)) as nat * SIGNATURE_PRIME as nat) % 0x1_0000_0000_0000_0000nat) as u64
}

/// The running hash after folding in `bytes` in order.
pub open spec fn mix_bytes(h: u64, bytes: Seq<u8>) -> u64
    decreases bytes.len(),
{
    if bytes.len() == 0 {
        h
    } else {
        mix_byte(mix_bytes(h, bytes.drop_last()), bytes.last())
    }
}

/// The hasher behind state signatures: the same bytes always give the same hash, in
/// every process (unlike std's randomly seeded hasher).
pub struct DeterministicHasher {
    pub state: u64,
}

impl DeterministicHasher {
    /// A hasher that has seen nothing.
    pub fn new() -> (r: DeterministicHasher)
        ensures
            r.state == SIGNATURE_SEED,
    {
        DeterministicHasher { state: SIGNATURE_SEED }
    }

    /// Folds `bytes` into the hash, in order.
    pub fn write(&mut self, bytes: &[u8])
        ensures
            final(self).state == mix_bytes(old(self).state, bytes@),
    {
        let mut i: usize = 0;
        while i < bytes.len()
            invariant
                0 <= i <= bytes@.len(),
                self.state == mix_bytes(old(self).state, bytes@.take(i as int)),
            decreases bytes@.len() - i,
        {
            proof {
                assert(bytes@.take(i + 1).drop_last() =~= bytes@.take(i as int));
            }
            let x = self.state ^ (bytes[i] as u64);
            self.state = x.wrapping_mul(SIGNATURE_PRIME);
            i += 1;
        }
        proof {
            assert(bytes@.take(i as int) =~= bytes@);
        }
    }

    /// The hash of everything written so far.
    pub fn finish(&self) -> (r: u64)
        ensures
            r == self.state,
    {
        self.state
    }
}

/// Writing in two pieces hashes as writing them at once: the signature of a state
/// depends only on the bytes fed in, not on how they were split into writes.
pub proof fn lemma_write_concat(h: u64, a: Seq<u8>, b: Seq<u8>)
    ensures
        mix_bytes(mix_bytes(h, a), b) == mix_bytes(h, a + b),
    decreases b.len(),
{
    if b.len() == 0 {
        assert(a + b =~= a);
    } else {
        lemma_write_concat(h, a, b.drop_last());
        assert((a + b).drop_last() =~= a + b.drop_last());
        assert((a + b).last() == b.last());
    }
}

} // verus!
