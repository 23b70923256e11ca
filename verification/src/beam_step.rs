//! One step of the beam search over single actions: which expanded nodes survive.
//!
//! Nodes are known here by what the step reads of them: the signature of their
//! state, the AP their crew has left, and their score as an integer key that orders
//! as the score does. A signature already reached with more AP, or with as much AP
//! and a score at least as good, is not expanded again; among the nodes that pass,
//! the last one of each signature stands for it; the best of those, by score and
//! then by signature, form the next beam.

use vstd::prelude::*;
use std::collections::HashMap;
use crate::model::GamePhase;

verus! {

broadcast use vstd::std_specs::hash::group_hash_axioms;

/// What the step reads of an expanded node.
#[derive(Debug, Clone, Copy, PartialEq, Eq, Structural)]
pub struct Offer {
    pub signature: u64,
    /// The AP the crew has left, summed over the players.
    pub total_ap: i32,
    /// The node's score, as a key that orders as the score does.
    pub score: i64,
}

/// The best (AP, score) reached so far for each signature.
pub type Visited = HashMap<u64, (i32, i64)>;

/// `o` is worth keeping given what was reached before: its signature is new, or it
/// has more AP left, or as much AP and a strictly better score.
pub open spec fn worth_keeping(v: Map<u64, (i32, i64)>, o: Offer) -> bool {
    !v.contains_key(o.signature) || o.total_ap > v[o.signature].0 || (o.total_ap
        == v[o.signature].0 && o.score > v[o.signature].1)
}

/// The table of what was reached after offering `offers` in order.
pub open spec fn visited_after(v: Map<u64, (i32, i64)>, offers: Seq<Offer>) -> Map<
    u64,
    (i32, i64),
>
    decreases offers.len(),
{
    if offers.len() == 0 {
        v
    } else {
        let prev = visited_after(v, offers.drop_last());
        let o = offers.last();
        if worth_keeping(prev, o) {
            prev.insert(o.signature, (o.total_ap, o.score))
        } else {
            prev
        }
    }
}

/// For each signature, the position of the last offer of it that was kept.
pub open spec fn kept_map(v: Map<u64, (i32, i64)>, offers: Seq<Offer>) -> Map<u64, int>
    decreases offers.len(),
{
    if offers.len() == 0 {
        Map::empty()
    } else {
        let prev = kept_map(v, offers.drop_last());
        let o = offers.last();
        if worth_keeping(visited_after(v, offers.drop_last()), o) {
            prev.insert(o.signature, offers.len() - 1)
        } else {
            prev
        }
    }
}

/// `a` ranks before `b`: a higher score, or the same score and a smaller signature.
pub open spec fn ranks_before(a: Offer, b: Offer) -> bool {
    a.score > b.score || (a.score == b.score && a.signature < b.signature)
}

/// Whether `a` ranks before `b` (see [`ranks_before`]).
pub fn ranks_ahead(a: Offer, b: Offer) -> (r: bool)
    ensures
        r == ranks_before(a, b),
{
    a.score > b.score || (a.score == b.score && a.signature < b.signature)
}

/// `r` (positions into `offers`) is the next beam chosen from the kept offers `kept`
/// with room for `width`: the kept offers in rank order, best first, as many as fit.
pub open spec fn is_next_beam(offers: Seq<Offer>, kept: Map<u64, int>, width: nat, r: Seq<usize>) -> bool {
    &&& r.len() <= width
    &&& forall|i: int, j: int|
        0 <= i < j < r.len() ==> ranks_before(offers[r[i] as int], offers[r[j] as int])
    &&& forall|i: int|
        0 <= i < r.len() ==> (r[i] as int) < offers.len() && kept.contains_key(
            offers[r[i] as int].signature,
        ) && kept[offers[r[i] as int].signature] == r[i] as int
    &&& forall|s: u64|
        #![trigger kept[s]]
        kept.contains_key(s) ==> r.contains(kept[s] as usize) || (
        r.len() == width && forall|i: int|
            0 <= i < r.len() ==> ranks_before(offers[r[i] as int], offers[kept[s]]))
}

proof fn lemma_kept_props(v: Map<u64, (i32, i64)>, offers: Seq<Offer>)
    ensures
        forall|s: u64|
            #![trigger kept_map(v, offers)[s]]
            kept_map(v, offers).contains_key(s) ==> 0 <= kept_map(v, offers)[s] < offers.len()
                && offers[kept_map(v, offers)[s]].signature == s,
    decreases offers.len(),
{
    if offers.len() > 0 {
        let pre = offers.drop_last();
        lemma_kept_props(v, pre);
        let km = kept_map(v, offers);
        assert forall|s: u64| #[trigger] km.contains_key(s) implies 0 <= km[s] < offers.len()
            && offers[km[s]].signature == s by {
            if worth_keeping(visited_after(v, pre), offers.last()) && s == offers.last().signature {
            } else {
                let kp = kept_map(v, pre);
                assert(kp.contains_key(s));
                assert(kp[s] == km[s]);
                assert(pre[kp[s]] == offers[kp[s]]);
            }
        }
    }
}

/// Chooses the next beam from the nodes one step expanded, in the order they were
/// generated, and records in `visited` what they reached. The result holds positions
/// into `offers`.
pub fn next_beam(offers: &Vec<Offer>, visited: &mut Visited, width: usize) -> (r: Vec<usize>)
    ensures
        final(visited)@ == visited_after(old(visited)@, offers@),
        is_next_beam(offers@, kept_map(old(visited)@, offers@), width as nat, r@),
{
    let ghost v0 = visited@;
    let mut pos: HashMap<u64, usize> = HashMap::new();
    let mut kept: Vec<usize> = Vec::new();
    let mut i: usize = 0;
    while i < offers.len()
        invariant
            0 <= i <= offers@.len(),
            visited@ == visited_after(v0, offers@.take(i as int)),
            pos@.dom() == kept_map(v0, offers@.take(i as int)).dom(),
            forall|s: u64|
                #![trigger pos@[s]]
                pos@.contains_key(s) ==> pos@[s] < kept@.len() && kept@[pos@[s] as int] as int
                    == kept_map(v0, offers@.take(i as int))[s],
            forall|k: int|
                #![trigger kept@[k]]
                0 <= k < kept@.len() ==> (kept@[k] as int) < i && pos@.contains_key(
                    offers@[kept@[k] as int].signature,
                ) && pos@[offers@[kept@[k] as int].signature] == k,
        decreases offers@.len() - i,
    {
        let o = offers[i];
        let ghost pre = offers@.take(i as int);
        let ghost km = kept_map(v0, pre);
        proof {
            assert(offers@.take(i + 1).drop_last() =~= pre);
            assert(offers@.take(i + 1).last() == o);
            lemma_kept_props(v0, pre);
        }
        let keep = match visited.get(&o.signature) {
            Some(best) => o.total_ap > best.0 || (o.total_ap == best.0 && o.score > best.1),
            None => true,
        };
        if keep {
            visited.insert(o.signature, (o.total_ap, o.score));
            match pos.get(&o.signature) {
                Some(p) => {
                    let p = *p;
                    kept.set(p, i);
                    proof {
                        assert forall|k: int| 0 <= k < kept@.len() implies (kept@[k] as int) < i
                            + 1 && pos@.contains_key(offers@[kept@[k] as int].signature)
                            && pos@[offers@[kept@[k] as int].signature] == k by {
                            if k != p {
                                assert(offers@[kept@[k] as int].signature != o.signature);
                            }
                        }
                    }
                },
                None => {
                    proof {
                        assert forall|k: int| 0 <= k < kept@.len() implies offers@[kept@[k] as int].signature
                            != o.signature by {}
                    }
                    pos.insert(o.signature, kept.len());
                    kept.push(i);
                },
            }
        }
        i += 1;
        proof {
            assert(offers@.take(i as int) =~= offers@.take(i as int));
        }
    }
    proof {
        assert(offers@.take(i as int) =~= offers@);
    }
    let ghost km = kept_map(v0, offers@);
    proof {
        lemma_kept_props(v0, offers@);
    }
    // Rank the kept offers, best first.
    let mut sorted: Vec<usize> = Vec::new();
    let mut j: usize = 0;
    while j < kept.len()
        invariant
            0 <= j <= kept@.len(),
            forall|k: int|
                #![trigger kept@[k]]
                0 <= k < kept@.len() ==> (kept@[k] as int) < offers@.len() && km.contains_key(
                    offers@[kept@[k] as int].signature,
                ) && km[offers@[kept@[k] as int].signature] == kept@[k] as int && pos@[offers@[kept@[k] as int].signature] == k,
            forall|a: int, b: int|
                0 <= a < b < sorted@.len() ==> ranks_before(
                    offers@[sorted@[a] as int],
                    offers@[sorted@[b] as int],
                ),
            forall|a: int|
                #![trigger sorted@[a]]
                0 <= a < sorted@.len() ==> (sorted@[a] as int) < offers@.len() && km.contains_key(
                    offers@[sorted@[a] as int].signature,
                ) && km[offers@[sorted@[a] as int].signature] == sorted@[a] as int && pos@[offers@[sorted@[a] as int].signature] < j,
            forall|k: int| 0 <= k < j ==> sorted@.contains(#[trigger] kept@[k]),
        decreases kept@.len() - j,
    {
        let x = kept[j];
        let ox = offers[x];
        let mut at: usize = 0;
        while at < sorted.len() && ranks_ahead(offers[sorted[at]], ox)
            invariant
                0 <= at <= sorted@.len(),
                forall|a: int|
                    0 <= a < sorted@.len() ==> (sorted@[a] as int) < offers@.len(),
                forall|a: int| 0 <= a < at ==> ranks_before(offers@[sorted@[a] as int], ox),
            decreases sorted@.len() - at,
        {
            at += 1;
        }
        let ghost prev = sorted@;
        proof {
            assert(pos@[ox.signature] == j);
            assert forall|a: int| 0 <= a < prev.len() implies offers@[prev[a] as int].signature
                != ox.signature by {
                let s = offers@[prev[a] as int].signature;
                assert(pos@[s] < j);
            }
            if at < prev.len() {
                assert(!ranks_before(offers@[prev[at as int] as int], ox));
                assert(offers@[prev[at as int] as int].signature != ox.signature);
                assert(ranks_before(ox, offers@[prev[at as int] as int]));
            }
            prev.insert_ensures(at as int, x);
        }
        sorted.insert(at, x);
        proof {
            assert forall|a: int, b: int|
                0 <= a < b < sorted@.len() implies ranks_before(
                offers@[sorted@[a] as int],
                offers@[sorted@[b] as int],
            ) by {
                if b < at {
                    assert(sorted@[a] == prev[a] && sorted@[b] == prev[b]);
                } else if b == at {
                    assert(sorted@[a] == prev[a]);
                } else if a < at {
                    assert(sorted@[a] == prev[a] && sorted@[b] == prev[b - 1]);
                } else if a == at {
                    assert(sorted@[b] == prev[b - 1]);
                    if b - 1 > at {
                        assert(ranks_before(offers@[prev[at as int] as int], offers@[prev[b - 1] as int]));
                    }
                } else {
                    assert(sorted@[a] == prev[a - 1] && sorted@[b] == prev[b - 1]);
                }
            }
            assert forall|a: int| #![trigger sorted@[a]] 0 <= a < sorted@.len() implies (sorted@[a] as int)
                < offers@.len() && km.contains_key(offers@[sorted@[a] as int].signature)
                && km[offers@[sorted@[a] as int].signature] == sorted@[a] as int
                && pos@[offers@[sorted@[a] as int].signature] < j + 1 by {
                if a < at {
                    assert(sorted@[a] == prev[a]);
                } else if a > at {
                    assert(sorted@[a] == prev[a - 1]);
                }
            }
            assert forall|k: int| 0 <= k < j + 1 implies sorted@.contains(#[trigger] kept@[k]) by {
                if k == j {
                    assert(sorted@[at as int] == x);
                } else {
                    assert(prev.contains(kept@[k]));
                    let q = choose|q: int| 0 <= q < prev.len() && prev[q] == kept@[k];
                    if q < at {
                        assert(sorted@[q] == kept@[k]);
                    } else {
                        assert(sorted@[q + 1] == kept@[k]);
                    }
                }
            }
        }
        j += 1;
    }
    proof {
        assert forall|s: u64| #![trigger km[s]] km.contains_key(s) implies sorted@.contains(
            km[s] as usize,
        ) by {
            assert(pos@.contains_key(s));
            assert(kept@[pos@[s] as int] as int == km[s]);
        }
    }
    let ghost full = sorted@;
    sorted.truncate(width);
    proof {
        assert(sorted@.len() <= width);
        assert forall|a: int, b: int| 0 <= a < b < sorted@.len() implies ranks_before(
            offers@[sorted@[a] as int],
            offers@[sorted@[b] as int],
        ) by {
            assert(sorted@[a] == full[a] && sorted@[b] == full[b]);
        }
        assert forall|a: int| 0 <= a < sorted@.len() implies (sorted@[a] as int) < offers@.len()
            && km.contains_key(offers@[sorted@[a] as int].signature) && km[offers@[sorted@[a] as int].signature]
            == sorted@[a] as int by {
            assert(sorted@[a] == full[a]);
        }
        assert forall|s: u64| #![trigger km[s]] km.contains_key(s) implies sorted@.contains(km[s] as usize) || (sorted@.len() == width
            && forall|i: int|
            0 <= i < sorted@.len() ==> ranks_before(offers@[sorted@[i] as int], offers@[km[s]])) by {
            assert(full.contains(km[s] as usize));
            let q = choose|q: int| 0 <= q < full.len() && full[q] == km[s] as usize;
            if q < sorted@.len() {
                assert(sorted@[q] as int == km[s]);
            } else {
                assert(full.len() > width);
                assert(sorted@.len() == width);
                assert forall|i: int| 0 <= i < sorted@.len() implies ranks_before(
                    offers@[sorted@[i] as int],
                    offers@[km[s]],
                ) by {
                    assert(sorted@[i] == full[i]);
                }
            }
        }
    }
    sorted
}

proof fn lemma_rank_total_order(a: Offer, b: Offer)
    requires
        a.signature != b.signature,
    ensures
        ranks_before(a, b) || ranks_before(b, a),
        !(ranks_before(a, b) && ranks_before(b, a)),
{
}

proof fn lemma_agree_from(
    offers: Seq<Offer>,
    kept: Map<u64, int>,
    width: nat,
    r1: Seq<usize>,
    r2: Seq<usize>,
    k: int,
)
    requires
        is_next_beam(offers, kept, width, r1),
        is_next_beam(offers, kept, width, r2),
        0 <= k <= r1.len(),
        k <= r2.len(),
        forall|i: int| 0 <= i < k ==> r1[i] == r2[i],
    ensures
        forall|i: int| 0 <= i < r1.len() && i < r2.len() ==> r1[i] == r2[i],
    decreases r1.len() - k,
{
    if k < r1.len() && k < r2.len() {
        let a = r1[k];
        let b = r2[k];
        if a != b {
            let oa = offers[a as int];
            let ob = offers[b as int];
            assert(kept[oa.signature] == a as int);
            assert(kept[ob.signature] == b as int);
            lemma_rank_total_order(oa, ob);
            if ranks_before(oa, ob) {
                lemma_not_in_other(offers, kept, width, r1, r2, k);
                assert(ranks_before(offers[r2[k] as int], offers[kept[oa.signature]]));
            } else {
                lemma_not_in_other(offers, kept, width, r2, r1, k);
                assert(ranks_before(offers[r1[k] as int], offers[kept[ob.signature]]));
            }
        }
        lemma_agree_from(offers, kept, width, r1, r2, k + 1);
    }
}

proof fn lemma_not_in_other(
    offers: Seq<Offer>,
    kept: Map<u64, int>,
    width: nat,
    r1: Seq<usize>,
    r2: Seq<usize>,
    k: int,
)
    requires
        is_next_beam(offers, kept, width, r1),
        is_next_beam(offers, kept, width, r2),
        0 <= k < r1.len(),
        k < r2.len(),
        forall|i: int| 0 <= i < k ==> r1[i] == r2[i],
        ranks_before(offers[r1[k] as int], offers[r2[k] as int]),
    ensures
        !r2.contains(r1[k]),
{
    if r2.contains(r1[k]) {
        let p = choose|p: int| 0 <= p < r2.len() && r2[p] == r1[k];
        if p < k {
            assert(r1[p] == r1[k]);
            assert(ranks_before(offers[r1[p] as int], offers[r1[k] as int]));
        } else if p > k {
            assert(ranks_before(offers[r2[k] as int], offers[r2[p] as int]));
        } else {
            assert(ranks_before(offers[r1[k] as int], offers[r1[k] as int]));
        }
    }
}

/// The next beam is fully determined by the kept offers and the width: any two lists
/// that meet [`is_next_beam`] are the same list.
pub proof fn lemma_next_beam_unique(
    offers: Seq<Offer>,
    kept: Map<u64, int>,
    width: nat,
    r1: Seq<usize>,
    r2: Seq<usize>,
)
    requires
        is_next_beam(offers, kept, width, r1),
        is_next_beam(offers, kept, width, r2),
    ensures
        r1 == r2,
{
    lemma_agree_from(offers, kept, width, r1, r2, 0);
    lemma_agree_from(offers, kept, width, r2, r1, 0);
    lemma_not_longer(offers, kept, width, r1, r2);
    lemma_not_longer(offers, kept, width, r2, r1);
    assert(r1 =~= r2);
}

proof fn lemma_not_longer(offers: Seq<Offer>, kept: Map<u64, int>, width: nat, r1: Seq<usize>, r2: Seq<usize>)
    requires
        is_next_beam(offers, kept, width, r1),
        is_next_beam(offers, kept, width, r2),
        forall|i: int| 0 <= i < r1.len() && i < r2.len() ==> r1[i] == r2[i],
    ensures
        r1.len() <= r2.len(),
{
    if r1.len() > r2.len() {
        let k = r2.len() as int;
        let a = r1[k];
        let s = offers[a as int].signature;
        assert(kept[s] == a as int);
        if r2.contains(a) {
            let p = choose|p: int| 0 <= p < r2.len() && r2[p] == a;
            assert(r1[p] == a);
            assert(ranks_before(offers[r1[p] as int], offers[r1[k] as int]));
        }
    }
}

/// What was reached is never forgotten nor made worse: after a step every signature
/// reached before is still recorded, with at least as much AP, and with as good a
/// score when the AP is the same.
pub proof fn lemma_visited_only_improves(v: Map<u64, (i32, i64)>, offers: Seq<Offer>, s: u64)
    requires
        v.contains_key(s),
    ensures
        visited_after(v, offers).contains_key(s),
        visited_after(v, offers)[s].0 > v[s].0 || (visited_after(v, offers)[s].0 == v[s].0
            && visited_after(v, offers)[s].1 >= v[s].1),
    decreases offers.len(),
{
    if offers.len() > 0 {
        lemma_visited_only_improves(v, offers.drop_last(), s);
    }
}

/// Which node of the beam ends the search: the first node whose game is over, if it
/// is won. A lost game ahead of a won one hides it.
pub open spec fn victory_spec(phases: Seq<GamePhase>) -> Option<int>
    decreases phases.len(),
{
    if phases.len() == 0 {
        None
    } else if phases[0] == GamePhase::Victory {
        Some(0)
    } else if phases[0] == GamePhase::GameOver {
        None
    } else {
        match victory_spec(phases.drop_first()) {
            Some(i) => Some(i + 1),
            None => None,
        }
    }
}

/// The position of the node that ends the search with a win, if any (see
/// [`victory_spec`]).
pub fn winning_node(phases: &Vec<GamePhase>) -> (r: Option<usize>)
    ensures
        match r {
            Some(i) => victory_spec(phases@) == Some(i as int),
            None => victory_spec(phases@) is None,
        },
{
    let mut i: usize = 0;
    proof {
        assert(phases@.skip(0) =~= phases@);
    }
    while i < phases.len()
        invariant
            0 <= i <= phases@.len(),
            forall|k: int| 0 <= k < i ==> phases@[k] != GamePhase::Victory && phases@[k] != GamePhase::GameOver,
            victory_spec(phases@) == match victory_spec(phases@.skip(i as int)) {
                Some(k) => Some(k + i),
                None => None,
            },
        decreases phases@.len() - i,
    {
        let p = phases[i];
        if p == GamePhase::Victory {
            return Some(i);
        }
        if p == GamePhase::GameOver {
            return None;
        }
        proof {
            assert(phases@.skip(i as int).drop_first() =~= phases@.skip(i + 1));
        }
        i += 1;
    }
    proof {
        assert(phases@.skip(i as int).len() == 0);
    }
    None
}

/// The best partial solution is replaced by the head of the beam when the head is in
/// a later round, or in the same round with a strictly better score.
pub open spec fn improves_spec(head_round: u32, head_score: i64, best_round: u32, best_score: i64) -> bool {
    head_round > best_round || (head_round == best_round && head_score > best_score)
}

/// Whether the head of the beam replaces the best partial solution (see
/// [`improves_spec`]).
pub fn improves_partial(head_round: u32, head_score: i64, best_round: u32, best_score: i64) -> (b:
    bool)
    ensures
        b == improves_spec(head_round, head_score, best_round, best_score),
{
    head_round > best_round || (head_round == best_round && head_score > best_score)
}

} // verus!

verus! {

/// What the search loop knows of a node of the beam: what the step reads of it, the
/// round it is in, and its phase.
#[derive(Debug, Clone, Copy, PartialEq, Eq, Structural)]
pub struct NodeInfo {
    pub signature: u64,
    pub total_ap: i32,
    pub score: i64,
    pub round: u32,
    pub phase: GamePhase,
}

/// What the step reads of a node.
pub open spec fn offer_of(n: NodeInfo) -> Offer {
    Offer { signature: n.signature, total_ap: n.total_ap, score: n.score }
}

/// What the step reads of each node, in order.
pub open spec fn offers_of(ns: Seq<NodeInfo>) -> Seq<Offer> {
    ns.map_values(|n: NodeInfo| offer_of(n))
}

/// The phases of the nodes, in order.
pub open spec fn phases_of(ns: Seq<NodeInfo>) -> Seq<GamePhase> {
    ns.map_values(|n: NodeInfo| n.phase)
}

/// What the search does at the start of a step.
#[derive(Debug, Clone, Copy, PartialEq, Eq, Structural)]
pub enum StepDecision {
    /// Stop: the steps ran out, the beam died, or the time is up.
    Finish,
    /// Stop: the node at this position of the beam won the game.
    Won(usize),
    /// Expand every node of the beam and hand back the children.
    Expand,
}

/// The start of a step: whether the head of the beam becomes the best partial
/// solution (and is reported as progress), and what to do next.
#[derive(Debug, Clone, Copy, PartialEq, Eq, Structural)]
pub struct StepPlan {
    pub remember_head: bool,
    pub decision: StepDecision,
}

/// The search loop's state: the beam, the best partial solution seen, what was
/// reached, and the step under way.
pub struct BeamRun {
    pub beam: Vec<NodeInfo>,
    pub best: Option<NodeInfo>,
    pub visited: Visited,
    pub step: usize,
    pub steps: usize,
    pub width: usize,
    pub winner: Option<usize>,
    pub finished: bool,
    /// The beam was handed out for expansion and the children are awaited.
    pub expanding: bool,
}

/// The value of a [`BeamRun`].
pub struct RunView {
    pub beam: Seq<NodeInfo>,
    pub best: Option<NodeInfo>,
    pub visited: Map<u64, (i32, i64)>,
    pub step: nat,
    pub steps: nat,
    pub width: nat,
    pub winner: Option<nat>,
    pub finished: bool,
    pub expanding: bool,
}

impl BeamRun {
    /// The value of the run.
    pub open spec fn view_of(&self) -> RunView {
        RunView {
            beam: self.beam@,
            best: self.best,
            visited: self.visited@,
            step: self.step as nat,
            steps: self.steps as nat,
            width: self.width as nat,
            winner: match self.winner {
                Some(i) => Some(i as nat),
                None => None,
            },
            finished: self.finished,
            expanding: self.expanding,
        }
    }
}

/// The start of step `m.step`, with `time_up` telling whether the time limit has
/// passed: stop when the steps ran out or the beam died; otherwise the head of the
/// beam becomes the best partial solution if it improves on it (see
/// [`improves_spec`]), then stop when the time is up, stop with the winning node when
/// the first finished game of the beam is won, and otherwise expand.
pub open spec fn begin_spec(m: RunView, time_up: bool) -> (RunView, StepPlan) {
    if m.step >= m.steps || m.beam.len() == 0 {
        (RunView { finished: true, ..m }, StepPlan { remember_head: false, decision: StepDecision::Finish })
    } else {
        let head = m.beam[0];
        let remember = match m.best {
            Some(b) => improves_spec(head.round, head.score, b.round, b.score),
            None => true,
        };
        let best = if remember {
            Some(head)
        } else {
            m.best
        };
        if time_up {
            (RunView { best, finished: true, ..m }, StepPlan { remember_head: remember, decision: StepDecision::Finish })
        } else {
            match victory_spec(phases_of(m.beam)) {
                Some(i) => (
                    RunView { best, winner: Some(i as nat), finished: true, ..m },
                    StepPlan { remember_head: remember, decision: StepDecision::Won(i as usize) },
                ),
                None => (
                    RunView { best, expanding: true, ..m },
                    StepPlan { remember_head: remember, decision: StepDecision::Expand },
                ),
            }
        }
    }
}

impl BeamRun {
    /// A search whose beam holds the root alone, which is also the best partial
    /// solution so far; it runs for at most `steps` steps with room for `width` nodes.
    pub fn new(root: NodeInfo, steps: usize, width: usize) -> (r: BeamRun)
        ensures
            r.view_of() == (RunView {
                beam: seq![root],
                best: Some(root),
                visited: Map::empty(),
                step: 0,
                steps: steps as nat,
                width: width as nat,
                winner: None,
                finished: false,
                expanding: false,
            }),
    {
        let mut beam: Vec<NodeInfo> = Vec::new();
        beam.push(root);
        let r = BeamRun {
            beam,
            best: Some(root),
            visited: Visited::new(),
            step: 0,
            steps,
            width,
            winner: None,
            finished: false,
            expanding: false,
        };
        assert(r.beam@ =~= seq![root]);
        r
    }

    /// Starts a step (see [`begin_spec`]).
    pub fn begin_step(&mut self, time_up: bool) -> (p: StepPlan)
        requires
            !old(self).finished,
            !old(self).expanding,
        ensures
            (final(self).view_of(), p) == begin_spec(old(self).view_of(), time_up),
    {
        if self.step >= self.steps || self.beam.len() == 0 {
            self.finished = true;
            return StepPlan { remember_head: false, decision: StepDecision::Finish };
        }
        let head = self.beam[0];
        let remember = match self.best {
            Some(b) => improves_partial(head.round, head.score, b.round, b.score),
            None => true,
        };
        if remember {
            self.best = Some(head);
        }
        if time_up {
            self.finished = true;
            return StepPlan { remember_head: remember, decision: StepDecision::Finish };
        }
        let mut phases: Vec<GamePhase> = Vec::new();
        let mut k: usize = 0;
        while k < self.beam.len()
            invariant
                0 <= k <= self.beam@.len(),
                phases@ == phases_of(self.beam@.take(k as int)),
            decreases self.beam@.len() - k,
        {
            phases.push(self.beam[k].phase);
            k += 1;
            proof {
                assert(phases@ =~= phases_of(self.beam@.take(k as int)));
            }
        }
        proof {
            assert(self.beam@.take(k as int) =~= self.beam@);
        }
        match winning_node(&phases) {
            Some(i) => {
                self.winner = Some(i);
                self.finished = true;
                StepPlan { remember_head: remember, decision: StepDecision::Won(i) }
            },
            None => {
                self.expanding = true;
                StepPlan { remember_head: remember, decision: StepDecision::Expand }
            },
        }
    }

    /// Takes the children of the beam's nodes, in the order they were generated, and
    /// makes the next beam of them (see [`next_beam`]); the step is done. Returns the
    /// positions in `children` of the nodes of the new beam, best first.
    pub fn expanded(&mut self, children: &Vec<NodeInfo>) -> (r: Vec<usize>)
        requires
            old(self).expanding,
            !old(self).finished,
            old(self).step < usize::MAX,
        ensures
            final(self).visited@ == visited_after(old(self).visited@, offers_of(children@)),
            is_next_beam(
                offers_of(children@),
                kept_map(old(self).visited@, offers_of(children@)),
                old(self).width as nat,
                r@,
            ),
            final(self).beam@ == r@.map_values(|k: usize| children@[k as int]),
            final(self).step == old(self).step + 1,
            final(self).best == old(self).best,
            final(self).steps == old(self).steps,
            final(self).width == old(self).width,
            final(self).winner == old(self).winner,
            !final(self).finished,
            !final(self).expanding,
    {
        let mut offers: Vec<Offer> = Vec::new();
        let mut k: usize = 0;
        while k < children.len()
            invariant
                0 <= k <= children@.len(),
                offers@ == offers_of(children@.take(k as int)),
            decreases children@.len() - k,
        {
            let c = children[k];
            offers.push(Offer { signature: c.signature, total_ap: c.total_ap, score: c.score });
            k += 1;
            proof {
                assert(offers@ =~= offers_of(children@.take(k as int)));
            }
        }
        proof {
            assert(children@.take(k as int) =~= children@);
        }
        let kept = next_beam(&offers, &mut self.visited, self.width);
        let mut beam: Vec<NodeInfo> = Vec::new();
        let mut j: usize = 0;
        while j < kept.len()
            invariant
                0 <= j <= kept@.len(),
                offers@ == offers_of(children@),
                forall|a: int| 0 <= a < kept@.len() ==> (kept@[a] as int) < offers@.len(),
                beam@ == kept@.take(j as int).map_values(|x: usize| children@[x as int]),
            decreases kept@.len() - j,
        {
            beam.push(children[kept[j]]);
            j += 1;
            proof {
                assert(beam@ =~= kept@.take(j as int).map_values(|x: usize| children@[x as int]));
            }
        }
        proof {
            assert(kept@.take(j as int) =~= kept@);
        }
        self.beam = beam;
        self.step = self.step + 1;
        self.expanding = false;
        kept
    }

    /// Whether the search failed: it found no win and its beam died.
    pub fn failed(&self) -> (b: bool)
        ensures
            b == (self.winner is None && self.beam@.len() == 0),
    {
        self.winner.is_none() && self.beam.len() == 0
    }
}

/// How a search ends: it stops at once when the beam dies, and when it stops with a
/// winner, the winning node is a won game and every node ahead of it in the beam is
/// still being played; the best partial solution never moves to an earlier round.
pub proof fn lemma_run_end(m: RunView, time_up: bool)
    requires
        !m.finished,
        m.beam.len() <= usize::MAX,
    ensures
        m.beam.len() == 0 ==> begin_spec(m, time_up).1.decision == StepDecision::Finish,
        begin_spec(m, time_up).1.decision matches StepDecision::Won(i) ==> {
            &&& (i as int) < m.beam.len()
            &&& m.beam[i as int].phase == GamePhase::Victory
            &&& forall|j: int| 0 <= j < i ==> m.beam[j].phase != GamePhase::Victory
                && m.beam[j].phase != GamePhase::GameOver
        },
        m.best matches Some(b) ==> begin_spec(m, time_up).0.best matches Some(b2) && b2.round
            >= b.round,
{
    if m.step < m.steps && m.beam.len() > 0 && !time_up {
        match victory_spec(phases_of(m.beam)) {
            Some(i) => {
                let ph = phases_of(m.beam);
                lemma_victory_spec(ph);
                assert(ph.len() == m.beam.len());
                assert forall|j: int| 0 <= j < i implies m.beam[j].phase != GamePhase::Victory
                    && m.beam[j].phase != GamePhase::GameOver by {
                    assert(ph[j] == m.beam[j].phase);
                }
                assert(ph[i] == m.beam[i].phase);
                assert((i as usize) as int == i);
            },
            None => {},
        }
    }
}

proof fn lemma_victory_spec(phases: Seq<GamePhase>)
    ensures
        victory_spec(phases) matches Some(i) ==> 0 <= i < phases.len() && phases[i]
            == GamePhase::Victory && forall|j: int|
            0 <= j < i ==> phases[j] != GamePhase::Victory && phases[j] != GamePhase::GameOver,
    decreases phases.len(),
{
    if phases.len() > 0 {
        lemma_victory_spec(phases.drop_first());
        if let Some(i) = victory_spec(phases) {
            if i > 0 {
                assert forall|j: int| 0 <= j < i implies phases[j] != GamePhase::Victory
                    && phases[j] != GamePhase::GameOver by {
                    if j > 0 {
                        assert(phases[j] == phases.drop_first()[j - 1]);
                    }
                }
                assert(phases[i] == phases.drop_first()[i - 1]);
            }
        }
    }
}

} // verus!
