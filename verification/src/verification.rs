//! Reading solution files: single commands and whole files of per-round actions.

use vstd::prelude::*;
use crate::model::{ActionView, GameAction, HazardType, ItemType};
use crate::text::{
    chars_of, contains_ci, line_ranges, line_spans, lines_of, parse_uint, parse_uint_window,
    remove_all, remove_all_string, spans, starts_with, trim_spec, trim_window, window_contains_ci,
    window_equals, window_starts_with, word_spans, words, lemma_trim_idempotent,
};

verus! {

broadcast use vstd::string::group_string_axioms;

/// The item that a `PickUp` command names; unknown names mean peppernuts.
pub open spec fn item_named(t: Seq<char>) -> ItemType {
    if t == "Extinguisher"@ {
        ItemType::Extinguisher
    } else if t == "Keychain"@ {
        ItemType::Keychain
    } else if t == "Wheelbarrow"@ {
        ItemType::Wheelbarrow
    } else if t == "Mitre"@ {
        ItemType::Mitre
    } else {
        ItemType::Peppernut
    }
}

/// Every item is read back from its own name: `item_named` undoes the name the game
/// gives each item.
pub proof fn lemma_item_names_read_back(i: ItemType)
    ensures
        item_named(crate::trajectory::item_name(i)) == i,
{
    reveal_strlit("Peppernut");
    reveal_strlit("Extinguisher");
    reveal_strlit("Keychain");
    reveal_strlit("Wheelbarrow");
    reveal_strlit("Mitre");
    // The five names have five different lengths.
    assert("Peppernut"@.len() == 9);
    assert("Extinguisher"@.len() == 12);
    assert("Keychain"@.len() == 8);
    assert("Wheelbarrow"@.len() == 11);
    assert("Mitre"@.len() == 5);
}

/// The action that the command text `c` stands for, or `None` where the command is
/// not understood (unknown word, missing or malformed argument).
pub open spec fn parse_action_spec(c: Seq<char>) -> Option<ActionView> {
    let t = trim_spec(c);
    let w = words(t);
    if starts_with(t, "Move"@) {
        if w.len() > 1 {
            match parse_uint(w[1], u32::MAX as nat) {
                Some(n) => Some(ActionView::Move { to_room: n as u32 }),
                None => None,
            }
        } else {
            None
        }
    } else if t == "Bake"@ {
        Some(ActionView::Bake)
    } else if t == "Shoot"@ {
        Some(ActionView::Shoot)
    } else if starts_with(t, "Throw"@) {
        if w.len() > 2 {
            match parse_uint(w[2], usize::MAX as nat) {
                Some(n) => Some(
                    ActionView::Throw { target_player: w[1], item_index: n as usize },
                ),
                None => None,
            }
        } else {
            None
        }
    } else if t == "Extinguish"@ {
        Some(ActionView::Extinguish)
    } else if t == "Repair"@ {
        Some(ActionView::Repair)
    } else if starts_with(t, "PickUp"@) {
        Some(
            ActionView::PickUp {
                item_type: if w.len() > 1 {
                    item_named(w[1])
                } else {
                    ItemType::Peppernut
                },
            },
        )
    } else if starts_with(t, "Drop"@) {
        if w.len() > 1 {
            match parse_uint(w[1], usize::MAX as nat) {
                Some(n) => Some(ActionView::Drop { item_index: n as usize }),
                None => None,
            }
        } else {
            None
        }
    } else if t == "Pass"@ {
        Some(ActionView::Pass)
    } else if t == "Ready"@ || t == "VoteReady"@ {
        Some(ActionView::VoteReady { ready: true })
    } else if t == "RaiseShields"@ {
        Some(ActionView::RaiseShields)
    } else if t == "EvasiveManeuvers"@ {
        Some(ActionView::EvasiveManeuvers)
    } else if t == "Lookout"@ {
        Some(ActionView::Lookout)
    } else if t == "Interact"@ {
        Some(ActionView::Interact)
    } else if starts_with(t, "Revive"@) {
        if w.len() > 1 {
            Some(ActionView::Revive { target_player: w[1] })
        } else {
            None
        }
    } else if starts_with(t, "FirstAid"@) {
        if w.len() > 1 {
            Some(ActionView::FirstAid { target_player: w[1] })
        } else {
            None
        }
    } else if starts_with(t, "Chat"@) {
        Some(ActionView::Chat { message: trim_spec(remove_all(t, "Chat "@)) })
    } else {
        None
    }
}

/// A word of the window `v[lo..hi]` as a string, given its range from [`word_spans`].
fn word_string(cmd: &str, v: &Vec<char>, a: usize, b: usize) -> (r: String)
    requires
        v@ == cmd@,
        a <= b <= v.len(),
    ensures
        r@ == v@.subrange(a as int, b as int),
{
    cmd.substring_char(a, b).to_owned()
}

proof fn lemma_word_at(v: Seq<char>, a: int, b: int, sp: Seq<(usize, usize)>, k: int)
    requires
        0 <= a <= b <= v.len(),
        sp.len() == spans(v.subrange(a, b)).len(),
        0 <= k < sp.len(),
        sp[k].0 == a + spans(v.subrange(a, b))[k].0,
        sp[k].1 == a + spans(v.subrange(a, b))[k].1,
        a <= sp[k].0 <= sp[k].1 <= b,
    ensures
        words(v.subrange(a, b))[k] == v.subrange(sp[k].0 as int, sp[k].1 as int),
{
    let t = v.subrange(a, b);
    assert(words(t)[k] =~= v.subrange(sp[k].0 as int, sp[k].1 as int));
}

/// The action that the command text `cmd` stands for, or `None` where the command is
/// unknown or incomplete (see [`parse_action_spec`]).
pub fn try_parse_game_action(cmd: &str) -> (r: Option<GameAction>)
    ensures
        match parse_action_spec(cmd@) {
            Some(a) => r is Some && r->0@ == a,
            None => r is None,
        },
{
    let v = chars_of(cmd);
    let n = v.len();
    let (a, b) = trim_window(&v, 0, n);
    assert(v@.subrange(0, n as int) =~= cmd@);
    let ghost t = v@.subrange(a as int, b as int);
    let sp = word_spans(&v, a, b);
    let nw = sp.len();
    assert(words(t).len() == nw);
    if window_starts_with(&v, a, b, &chars_of("Move")) {
        if nw > 1 {
            proof {
                lemma_word_at(v@, a as int, b as int, sp@, 1);
            }
            match parse_uint_window(&v, sp[1].0, sp[1].1, u32::MAX as u64) {
                Some(x) => {
                    return Some(GameAction::Move { to_room: x as u32 });
                },
                None => {
                    return None;
                },
            }
        }
        return None;
    }
    if window_equals(&v, a, b, &chars_of("Bake")) {
        return Some(GameAction::Bake);
    }
    if window_equals(&v, a, b, &chars_of("Shoot")) {
        return Some(GameAction::Shoot);
    }
    if window_starts_with(&v, a, b, &chars_of("Throw")) {
        if nw > 2 {
            proof {
                lemma_word_at(v@, a as int, b as int, sp@, 1);
                lemma_word_at(v@, a as int, b as int, sp@, 2);
            }
            match parse_uint_window(&v, sp[2].0, sp[2].1, usize::MAX as u64) {
                Some(x) => {
                    let target = word_string(cmd, &v, sp[1].0, sp[1].1);
                    return Some(
                        GameAction::Throw { target_player: target, item_index: x as usize },
                    );
                },
                None => {
                    return None;
                },
            }
        }
        return None;
    }
    if window_equals(&v, a, b, &chars_of("Extinguish")) {
        return Some(GameAction::Extinguish);
    }
    if window_equals(&v, a, b, &chars_of("Repair")) {
        return Some(GameAction::Repair);
    }
    if window_starts_with(&v, a, b, &chars_of("PickUp")) {
        let mut item = ItemType::Peppernut;
        if nw > 1 {
            proof {
                lemma_word_at(v@, a as int, b as int, sp@, 1);
            }
            let (s, e) = sp[1];
            if window_equals(&v, s, e, &chars_of("Extinguisher")) {
                item = ItemType::Extinguisher;
            } else if window_equals(&v, s, e, &chars_of("Keychain")) {
                item = ItemType::Keychain;
            } else if window_equals(&v, s, e, &chars_of("Wheelbarrow")) {
                item = ItemType::Wheelbarrow;
            } else if window_equals(&v, s, e, &chars_of("Mitre")) {
                item = ItemType::Mitre;
            }
        }
        return Some(GameAction::PickUp { item_type: item });
    }
    if window_starts_with(&v, a, b, &chars_of("Drop")) {
        if nw > 1 {
            proof {
                lemma_word_at(v@, a as int, b as int, sp@, 1);
            }
            match parse_uint_window(&v, sp[1].0, sp[1].1, usize::MAX as u64) {
                Some(x) => {
                    return Some(GameAction::Drop { item_index: x as usize });
                },
                None => {
                    return None;
                },
            }
        }
        return None;
    }
    if window_equals(&v, a, b, &chars_of("Pass")) {
        return Some(GameAction::Pass);
    }
    if window_equals(&v, a, b, &chars_of("Ready")) || window_equals(
        &v,
        a,
        b,
        &chars_of("VoteReady"),
    ) {
        return Some(GameAction::VoteReady { ready: true });
    }
    if window_equals(&v, a, b, &chars_of("RaiseShields")) {
        return Some(GameAction::RaiseShields);
    }
    if window_equals(&v, a, b, &chars_of("EvasiveManeuvers")) {
        return Some(GameAction::EvasiveManeuvers);
    }
    if window_equals(&v, a, b, &chars_of("Lookout")) {
        return Some(GameAction::Lookout);
    }
    if window_equals(&v, a, b, &chars_of("Interact")) {
        return Some(GameAction::Interact);
    }
    if window_starts_with(&v, a, b, &chars_of("Revive")) {
        if nw > 1 {
            proof {
                lemma_word_at(v@, a as int, b as int, sp@, 1);
            }
            let target = word_string(cmd, &v, sp[1].0, sp[1].1);
            return Some(GameAction::Revive { target_player: target });
        }
        return None;
    }
    if window_starts_with(&v, a, b, &chars_of("FirstAid")) {
        if nw > 1 {
            proof {
                lemma_word_at(v@, a as int, b as int, sp@, 1);
            }
            let target = word_string(cmd, &v, sp[1].0, sp[1].1);
            return Some(GameAction::FirstAid { target_player: target });
        }
        return None;
    }
    if window_starts_with(&v, a, b, &chars_of("Chat")) {
        let trimmed = cmd.substring_char(a, b);
        proof {
            reveal_strlit("Chat ");
        }
        let removed = remove_all_string(trimmed, &chars_of("Chat "));
        let rv = chars_of(removed.as_str());
        let (c, d) = trim_window(&rv, 0, rv.len());
        assert(rv@.subrange(0, rv.len() as int) =~= rv@);
        let message = removed.as_str().substring_char(c, d).to_owned();
        return Some(GameAction::Chat { message });
    }
    None
}

/// The action that the command text `cmd` stands for.
///
/// The command is trimmed first; `Move N`, `Throw P I`, `Drop I`, `Revive P`,
/// `FirstAid P` read their arguments as whitespace-separated words, `PickUp` an
/// optional item name, and `Chat` keeps the rest of the text as the message.
pub fn parse_game_action(cmd: &str) -> (r: GameAction)
    requires
        parse_action_spec(cmd@) is Some,
    ensures
        r@ == parse_action_spec(cmd@)->0,
{
    match try_parse_game_action(cmd) {
        Some(a) => a,
        None => {
            proof {
                assert(false);
            }
            GameAction::Pass
        },
    }
}

/// The actions of one round: who acts, and what they do, in order.
pub type RoundActions = Vec<(String, GameAction)>;

/// A parsed solution file: its rounds, its `SEED` and its `PLAYERS`, where given.
pub type ParsedSolution = (Vec<RoundActions>, Option<u64>, Option<usize>);

/// The value of one entry of a round.
pub open spec fn entry_view(e: (String, GameAction)) -> (Seq<char>, ActionView) {
    (e.0@, e.1@)
}

/// The value of one round.
pub open spec fn round_view(r: Seq<(String, GameAction)>) -> Seq<(Seq<char>, ActionView)> {
    r.map_values(|e: (String, GameAction)| entry_view(e))
}

/// The value of a list of rounds.
pub open spec fn rounds_view(rs: Seq<RoundActions>) -> Seq<Seq<(Seq<char>, ActionView)>> {
    rs.map_values(|r: RoundActions| round_view(r@))
}

/// What a (trimmed) line of a solution file is.
pub enum LineKindView {
    Blank,
    Comment { mentions_round: bool },
    Seed(u64),
    Players(usize),
    Entry(Seq<char>, ActionView),
    Other,
}

/// The first `:` of `s` stands at `i`.
pub open spec fn first_colon(s: Seq<char>, i: int) -> bool {
    0 <= i < s.len() && s[i] == ':' && forall|j: int| 0 <= j < i ==> s[j] != ':'
}

/// The number a `SEED` line gives, if `line` is one.
pub open spec fn seed_value(line: Seq<char>) -> Option<nat> {
    if starts_with(line, "SEED "@) {
        parse_uint(trim_spec(remove_all(line, "SEED "@)), u64::MAX as nat)
    } else {
        None
    }
}

/// The number a `PLAYERS` line gives, if `line` is one.
pub open spec fn players_value(line: Seq<char>) -> Option<nat> {
    if starts_with(line, "PLAYERS "@) {
        parse_uint(trim_spec(remove_all(line, "PLAYERS "@)), usize::MAX as nat)
    } else {
        None
    }
}

/// The player and command text of an action line `line` (`PLAYER: COMMAND`), if it is one.
pub open spec fn entry_parts(line: Seq<char>) -> Option<(Seq<char>, Seq<char>)> {
    if line.len() == 0 || line[0] == '#' || seed_value(line) is Some || players_value(line) is Some
        || !(exists|i: int| first_colon(line, i)) {
        None
    } else {
        let k = choose|i: int| first_colon(line, i);
        Some((trim_spec(line.take(k)), trim_spec(line.skip(k + 1))))
    }
}

/// What the trimmed line `line` of a solution file is.
pub open spec fn line_kind(line: Seq<char>) -> LineKindView {
    if line.len() == 0 {
        LineKindView::Blank
    } else if line[0] == '#' {
        LineKindView::Comment { mentions_round: contains_ci(line, "round"@) }
    } else if seed_value(line) is Some {
        LineKindView::Seed(seed_value(line)->0 as u64)
    } else if players_value(line) is Some {
        LineKindView::Players(players_value(line)->0 as usize)
    } else {
        match entry_parts(line) {
            Some(parts) => LineKindView::Entry(parts.0, parse_action_spec(parts.1)->0),
            None => LineKindView::Other,
        }
    }
}

/// A raw line of a solution file that the reader can take: an action line's command
/// must be understood.
pub open spec fn line_ok(raw: Seq<char>) -> bool {
    match entry_parts(trim_spec(raw)) {
        Some(parts) => parse_action_spec(parts.1) is Some,
        None => true,
    }
}

/// The reader's state between lines.
pub struct SolutionModel {
    pub rounds: Seq<Seq<(Seq<char>, ActionView)>>,
    pub current: Seq<(Seq<char>, ActionView)>,
    pub seed: Option<u64>,
    pub players: Option<usize>,
}

/// The reader's state after the raw line `raw`: a comment line that mentions a round
/// closes the current round, if it holds actions; `SEED` and `PLAYERS` lines set
/// their value; an action line adds to the current round.
pub open spec fn sol_step(st: SolutionModel, raw: Seq<char>) -> SolutionModel {
    match line_kind(trim_spec(raw)) {
        LineKindView::Comment { mentions_round } => if mentions_round && st.current.len() > 0 {
            SolutionModel {
                rounds: st.rounds.push(st.current),
                current: Seq::empty(),
                seed: st.seed,
                players: st.players,
            }
        } else {
            st
        },
        LineKindView::Seed(n) => SolutionModel {
            rounds: st.rounds,
            current: st.current,
            seed: Some(n),
            players: st.players,
        },
        LineKindView::Players(n) => SolutionModel {
            rounds: st.rounds,
            current: st.current,
            seed: st.seed,
            players: Some(n),
        },
        LineKindView::Entry(pid, a) => SolutionModel {
            rounds: st.rounds,
            current: st.current.push((pid, a)),
            seed: st.seed,
            players: st.players,
        },
        _ => st,
    }
}

/// The reader's state after the lines `ls`.
pub open spec fn sol_fold(ls: Seq<Seq<char>>) -> SolutionModel
    decreases ls.len(),
{
    if ls.len() == 0 {
        SolutionModel { rounds: Seq::empty(), current: Seq::empty(), seed: None, players: None }
    } else {
        sol_step(sol_fold(ls.drop_last()), ls.last())
    }
}

/// What a whole solution file gives: the rounds (the last one closed at the end of the
/// text, if it holds actions), the seed and the player count.
pub open spec fn solution_spec(text: Seq<char>) -> SolutionModel {
    let st = sol_fold(lines_of(text));
    SolutionModel {
        rounds: if st.current.len() > 0 {
            st.rounds.push(st.current)
        } else {
            st.rounds
        },
        current: Seq::empty(),
        seed: st.seed,
        players: st.players,
    }
}

/// What a line of a solution file is, as values.
pub enum LineKind {
    Blank,
    Comment { mentions_round: bool },
    Seed(u64),
    Players(usize),
    Entry(String, GameAction),
    Other,
}

impl View for LineKind {
    type V = LineKindView;

    open spec fn view(&self) -> LineKindView {
        match self {
            LineKind::Blank => LineKindView::Blank,
            LineKind::Comment { mentions_round } => LineKindView::Comment {
                mentions_round: *mentions_round,
            },
            LineKind::Seed(n) => LineKindView::Seed(*n),
            LineKind::Players(n) => LineKindView::Players(*n),
            LineKind::Entry(p, a) => LineKindView::Entry(p@, a@),
            LineKind::Other => LineKindView::Other,
        }
    }
}

/// The value a `SEED `/`PLAYERS ` line carries: the number left once every
/// occurrence of `key` is removed and the rest trimmed.
fn keyed_number(text: &str, v: &Vec<char>, a: usize, b: usize, key: &str, max: u64) -> (r:
    Option<u64>)
    requires
        v@ == text@,
        a <= b <= v.len(),
        key@.len() > 0,
    ensures
        match parse_uint(trim_spec(remove_all(v@.subrange(a as int, b as int), key@)), max as nat) {
            Some(n) => r == Some(n as u64),
            None => r is None,
        },
{
    let line_str = text.substring_char(a, b);
    let kc = chars_of(key);
    let removed = remove_all_string(line_str, &kc);
    let rv = chars_of(removed.as_str());
    let (c, d) = trim_window(&rv, 0, rv.len());
    assert(rv@.subrange(0, rv.len() as int) =~= rv@);
    parse_uint_window(&rv, c, d, max)
}

/// What the line `v[a..b]` of the text is (the line already trimmed).
fn classify_line(text: &str, v: &Vec<char>, a: usize, b: usize) -> (r: LineKind)
    requires
        v@ == text@,
        a <= b <= v.len(),
        line_ok(v@.subrange(a as int, b as int)),
        v@.subrange(a as int, b as int) == trim_spec(v@.subrange(a as int, b as int)),
    ensures
        r@ == line_kind(v@.subrange(a as int, b as int)),
{
    let ghost line = v@.subrange(a as int, b as int);
    if a == b {
        return LineKind::Blank;
    }
    if v[a] == '#' {
        let round = window_contains_ci(v, a, b, &chars_of("round"));
        return LineKind::Comment { mentions_round: round };
    }
    proof {
        reveal_strlit("SEED ");
        reveal_strlit("PLAYERS ");
    }
    if window_starts_with(v, a, b, &chars_of("SEED ")) {
        match keyed_number(text, v, a, b, "SEED ", u64::MAX) {
            Some(n) => {
                return LineKind::Seed(n);
            },
            None => {},
        }
    }
    if window_starts_with(v, a, b, &chars_of("PLAYERS ")) {
        match keyed_number(text, v, a, b, "PLAYERS ", usize::MAX as u64) {
            Some(n) => {
                return LineKind::Players(n as usize);
            },
            None => {},
        }
    }
    let mut k = a;
    while k < b && v[k] != ':'
        invariant
            a <= k <= b <= v.len(),
            forall|j: int| a <= j < k ==> v@[j] != ':',
        decreases b - k,
    {
        k += 1;
    }
    if k == b {
        assert forall|i: int| !first_colon(line, i) by {
            if 0 <= i < line.len() {
                assert(line[i] == v@[a + i]);
            }
        }
        return LineKind::Other;
    }
    proof {
        assert(first_colon(line, k - a));
        assert forall|i: int| first_colon(line, i) implies i == k - a by {
            if i < k - a {
                assert(line[i] == v@[a + i]);
            } else if i > k - a {
                assert(line[k - a] == ':');
            }
        }
    }
    let (pa, pb) = trim_window(v, a, k);
    let (ca, cb) = trim_window(v, k + 1, b);
    proof {
        assert(line.take(k - a) =~= v@.subrange(a as int, k as int));
        assert(line.skip(k - a + 1) =~= v@.subrange(k + 1, b as int));
    }
    let pid = text.substring_char(pa, pb).to_owned();
    let cmd = text.substring_char(ca, cb);
    let action = parse_game_action(cmd);
    LineKind::Entry(pid, action)
}

/// Reads a solution file.
///
/// Blank lines are skipped. A line starting with `#` that mentions "round" (in any
/// ASCII case) closes the current round if it holds actions; other `#` lines are
/// skipped. `SEED n` and `PLAYERS n` set the seed and the player count. A line
/// `PLAYER: COMMAND` adds the parsed command to the current round; other lines are
/// skipped. The last round is closed at the end of the text.
pub fn parse_solution_text(text: &str) -> (r: ParsedSolution)
    requires
        forall|k: int| 0 <= k < lines_of(text@).len() ==> line_ok(#[trigger] lines_of(text@)[k]),
    ensures
        rounds_view(r.0@) == solution_spec(text@).rounds,
        r.1 == solution_spec(text@).seed,
        r.2 == solution_spec(text@).players,
{
    let v = chars_of(text);
    let ls = line_ranges(&v);
    let mut rounds: Vec<RoundActions> = Vec::new();
    let mut current: RoundActions = Vec::new();
    let mut seed: Option<u64> = None;
    let mut players: Option<usize> = None;
    let ghost all = lines_of(text@);
    let mut idx: usize = 0;
    proof {
        assert(all.take(0) =~= Seq::<Seq<char>>::empty());
        assert(rounds_view(rounds@) =~= Seq::<Seq<(Seq<char>, ActionView)>>::empty());
        assert(round_view(current@) =~= Seq::<(Seq<char>, ActionView)>::empty());
    }
    while idx < ls.len()
        invariant
            v@ == text@,
            all == lines_of(text@),
            ls@.len() == line_spans(v@).len(),
            forall|k: int|
                #![trigger ls@[k]]
                0 <= k < ls@.len() ==> ls@[k].0 == line_spans(v@)[k].0 && ls@[k].1 == line_spans(
                    v@,
                )[k].1 && ls@[k].0 <= ls@[k].1 <= v.len(),
            forall|k: int| 0 <= k < all.len() ==> line_ok(#[trigger] all[k]),
            0 <= idx <= ls.len(),
            rounds_view(rounds@) == sol_fold(all.take(idx as int)).rounds,
            round_view(current@) == sol_fold(all.take(idx as int)).current,
            seed == sol_fold(all.take(idx as int)).seed,
            players == sol_fold(all.take(idx as int)).players,
        decreases ls.len() - idx,
    {
        let (l0, l1) = ls[idx];
        let ghost raw = v@.subrange(l0 as int, l1 as int);
        let ghost before = sol_fold(all.take(idx as int));
        proof {
            assert(all[idx as int] == raw);
            assert(all.take(idx + 1).drop_last() =~= all.take(idx as int));
            assert(all.take(idx + 1).last() == raw);
        }
        let (a, b) = trim_window(&v, l0, l1);
        proof {
            assert(line_ok(all[idx as int]));
            let t = trim_spec(raw);
            assert(trim_spec(t) =~= t) by {
                lemma_trim_idempotent(raw);
            }
        }
        let kind = classify_line(text, &v, a, b);
        match kind {
            LineKind::Comment { mentions_round } => {
                if mentions_round && current.len() > 0 {
                    let ghost cur = current@;
                    rounds.push(current);
                    current = Vec::new();
                    proof {
                        assert(rounds_view(rounds@) =~= before.rounds.push(round_view(cur)));
                        assert(round_view(current@) =~= Seq::<(Seq<char>, ActionView)>::empty());
                    }
                }
            },
            LineKind::Seed(n) => {
                seed = Some(n);
            },
            LineKind::Players(n) => {
                players = Some(n);
            },
            LineKind::Entry(pid, action) => {
                let ghost cur = current@;
                let ghost e = (pid, action);
                current.push((pid, action));
                proof {
                    assert(round_view(current@) =~= round_view(cur).push(entry_view(e)));
                }
            },
            _ => {},
        }
        idx += 1;
    }
    proof {
        assert(all.take(idx as int) =~= all);
    }
    if current.len() > 0 {
        let ghost cur = current@;
        let ghost rs = rounds@;
        rounds.push(current);
        proof {
            assert(rounds_view(rounds@) =~= rounds_view(rs).push(round_view(cur)));
        }
    }
    (rounds, seed, players)
}

} // verus!

verus! {

/// Surrounding whitespace never changes what a command means.
pub proof fn lemma_parse_ignores_padding(c: Seq<char>)
    ensures
        parse_action_spec(trim_spec(c)) == parse_action_spec(c),
{
    lemma_trim_idempotent(c);
}

} // verus!

verus! {

/// The emoji shown for a hazard in a failure report.
pub open spec fn hazard_emoji(h: HazardType) -> Seq<char> {
    match h {
        HazardType::Fire => "🔥"@,
        HazardType::Water => "💧"@,
    }
}

/// The emoji shown for an item in a failure report.
pub open spec fn item_emoji(i: ItemType) -> Seq<char> {
    match i {
        ItemType::Peppernut => "🍪"@,
        ItemType::Extinguisher => "🧯"@,
        ItemType::Keychain => "🔑"@,
        ItemType::Wheelbarrow => "🛒"@,
        ItemType::Mitre => "🧢"@,
    }
}

/// The emoji of a hazard (see [`hazard_emoji`]).
pub fn get_hazard_emoji(h: &HazardType) -> (r: &'static str)
    ensures
        r@ == hazard_emoji(*h),
{
    match h {
        HazardType::Fire => "🔥",
        HazardType::Water => "💧",
    }
}

/// The emoji of an item (see [`item_emoji`]).
pub fn get_item_emoji(i: &ItemType) -> (r: &'static str)
    ensures
        r@ == item_emoji(*i),
{
    match i {
        ItemType::Peppernut => "🍪",
        ItemType::Extinguisher => "🧯",
        ItemType::Keychain => "🔑",
        ItemType::Wheelbarrow => "🛒",
        ItemType::Mitre => "🧢",
    }
}

/// The emojis of a list of hazards, run together.
pub open spec fn hazard_emojis(hs: Seq<HazardType>) -> Seq<char>
    decreases hs.len(),
{
    if hs.len() == 0 {
        Seq::empty()
    } else {
        hazard_emojis(hs.drop_last()) + hazard_emoji(hs.last())
    }
}

/// The emojis of a list of items, run together.
pub open spec fn item_emojis(is: Seq<ItemType>) -> Seq<char>
    decreases is.len(),
{
    if is.len() == 0 {
        Seq::empty()
    } else {
        item_emojis(is.drop_last()) + item_emoji(is.last())
    }
}

/// The emojis of a list of hazards, run together (see [`hazard_emojis`]).
pub fn hazards_emoji_text(hs: &Vec<HazardType>) -> (r: String)
    ensures
        r@ == hazard_emojis(hs@),
{
    let mut out = String::new();
    let mut i: usize = 0;
    while i < hs.len()
        invariant
            0 <= i <= hs@.len(),
            out@ == hazard_emojis(hs@.take(i as int)),
        decreases hs@.len() - i,
    {
        proof {
            assert(hs@.take(i + 1).drop_last() =~= hs@.take(i as int));
        }
        out.append(get_hazard_emoji(&hs[i]));
        i += 1;
    }
    proof {
        assert(hs@.take(i as int) =~= hs@);
    }
    out
}

/// The emojis of a list of items, run together (see [`item_emojis`]).
pub fn items_emoji_text(is: &Vec<ItemType>) -> (r: String)
    ensures
        r@ == item_emojis(is@),
{
    let mut out = String::new();
    let mut i: usize = 0;
    while i < is.len()
        invariant
            0 <= i <= is@.len(),
            out@ == item_emojis(is@.take(i as int)),
        decreases is@.len() - i,
    {
        proof {
            assert(is@.take(i + 1).drop_last() =~= is@.take(i as int));
        }
        out.append(get_item_emoji(&is[i]));
        i += 1;
    }
    proof {
        assert(is@.take(i as int) =~= is@);
    }
    out
}

/// A line is ignorable when, trimmed, it is blank or a comment that does not mention a
/// round.
pub open spec fn ignorable(raw: Seq<char>) -> bool {
    line_kind(trim_spec(raw)) matches LineKindView::Blank || line_kind(trim_spec(raw))
        == (LineKindView::Comment { mentions_round: false })
}

/// Blank lines and comments that do not mention a round change nothing: dropping one
/// from anywhere in a file leaves what the reader makes of it as it was.
pub proof fn lemma_ignorable_lines(before: Seq<Seq<char>>, line: Seq<char>, after: Seq<Seq<char>>)
    requires
        ignorable(line),
    ensures
        sol_fold(before.push(line) + after) == sol_fold(before + after),
    decreases after.len(),
{
    if after.len() == 0 {
        assert(before.push(line) + after =~= before.push(line));
        assert(before + after =~= before);
        assert(before.push(line).drop_last() =~= before);
    } else {
        lemma_ignorable_lines(before, line, after.drop_last());
        assert((before.push(line) + after).drop_last() =~= before.push(line) + after.drop_last());
        assert((before + after).drop_last() =~= before + after.drop_last());
        assert((before.push(line) + after).last() == after.last());
        assert((before + after).last() == after.last());
    }
}

} // verus!
