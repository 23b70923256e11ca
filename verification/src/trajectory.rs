//! The replay log of a trajectory: the planning context shown at the start of each
//! round, and the running account of the actions taken, the bosses beaten and what
//! each round did to the ship.

use vstd::prelude::*;
use crate::driver::is_over;
use crate::model::{count_of, hazard_total, ActionView, GameAction, GamePhase, GameState, HazardType, ItemType, Player, Room};
use crate::replay::{append_int, append_nat, count_hazards, format_results, int_text, results_spec};
use crate::text::{text_equal, chars_of, remove_all, remove_all_string, starts_with, window_starts_with};
use crate::tui::{join_spec, join_strings, lemma_texts_len, texts};

verus! {

broadcast use vstd::string::group_string_axioms;

/// The name of a phase, as `{:?}` writes it.
pub open spec fn phase_name(p: GamePhase) -> Seq<char> {
    match p {
        GamePhase::Lobby => "Lobby"@,
        GamePhase::MorningReport => "MorningReport"@,
        GamePhase::EnemyTelegraph => "EnemyTelegraph"@,
        GamePhase::TacticalPlanning => "TacticalPlanning"@,
        GamePhase::Execution => "Execution"@,
        GamePhase::EnemyAction => "EnemyAction"@,
        GamePhase::GameOver => "GameOver"@,
        GamePhase::Victory => "Victory"@,
    }
}

/// The name of a phase (see [`phase_name`]).
pub fn phase_text(p: GamePhase) -> (r: &'static str)
    ensures
        r@ == phase_name(p),
{
    match p {
        GamePhase::Lobby => "Lobby",
        GamePhase::MorningReport => "MorningReport",
        GamePhase::EnemyTelegraph => "EnemyTelegraph",
        GamePhase::TacticalPlanning => "TacticalPlanning",
        GamePhase::Execution => "Execution",
        GamePhase::EnemyAction => "EnemyAction",
        GamePhase::GameOver => "GameOver",
        GamePhase::Victory => "Victory",
    }
}

/// The name of an item, as `{:?}` writes it.
pub open spec fn item_name(i: ItemType) -> Seq<char> {
    match i {
        ItemType::Peppernut => "Peppernut"@,
        ItemType::Extinguisher => "Extinguisher"@,
        ItemType::Keychain => "Keychain"@,
        ItemType::Wheelbarrow => "Wheelbarrow"@,
        ItemType::Mitre => "Mitre"@,
    }
}

/// The name of an item (see [`item_name`]).
pub fn item_text(i: ItemType) -> (r: &'static str)
    ensures
        r@ == item_name(i),
{
    match i {
        ItemType::Peppernut => "Peppernut",
        ItemType::Extinguisher => "Extinguisher",
        ItemType::Keychain => "Keychain",
        ItemType::Wheelbarrow => "Wheelbarrow",
        ItemType::Mitre => "Mitre",
    }
}

/// The names of a list of items, in order.
pub open spec fn item_names(items: Seq<ItemType>) -> Seq<Seq<char>>
    decreases items.len(),
{
    if items.len() == 0 {
        Seq::empty()
    } else {
        item_names(items.drop_last()).push(item_name(items.last()))
    }
}

/// A list of items as `{:?}` writes it: `[Peppernut, Mitre]`.
pub open spec fn items_debug(items: Seq<ItemType>) -> Seq<char> {
    "["@ + join_spec(item_names(items), ", "@) + "]"@
}

proof fn lemma_texts_push(v: Seq<String>, x: String)
    ensures
        texts(v.push(x)) == texts(v).push(x@),
{
    assert(v.push(x).drop_last() =~= v);
}

/// A list of items as `{:?}` writes it (see [`items_debug`]).
pub fn items_text(items: &Vec<ItemType>) -> (r: String)
    ensures
        r@ == items_debug(items@),
{
    let mut names: Vec<String> = Vec::new();
    let mut i: usize = 0;
    while i < items.len()
        invariant
            0 <= i <= items@.len(),
            texts(names@) == item_names(items@.take(i as int)),
        decreases items@.len() - i,
    {
        let name = String::from_str(item_text(items[i]));
        proof {
            lemma_texts_push(names@, name);
            assert(items@.take(i + 1).drop_last() =~= items@.take(i as int));
        }
        names.push(name);
        i += 1;
    }
    proof {
        assert(items@.take(i as int) =~= items@);
    }
    let joined = join_strings(names.as_slice(), ", ");
    let mut out = String::from_str("[");
    out.append(joined.as_str());
    out.append("]");
    out
}

/// How a player appears in the `[PLAYERS]` line: id, room, and what they carry.
pub open spec fn player_entry(p: Player) -> Seq<char> {
    p.id@ + ": R"@ + int_text(p.room_id as int) + if p.inventory@.len() == 0 {
        Seq::<char>::empty()
    } else {
        " "@ + items_debug(p.inventory@)
    }
}

/// The entries of the `[PLAYERS]` line, in the order of the players.
pub open spec fn player_entries(ps: Seq<Player>) -> Seq<Seq<char>>
    decreases ps.len(),
{
    if ps.len() == 0 {
        Seq::empty()
    } else {
        player_entries(ps.drop_last()).push(player_entry(ps.last()))
    }
}

/// For each room holding hazards of kind `h`, in the order of the rooms, its id and
/// how many: `3 (x2)`.
pub open spec fn hazard_entries(rs: Seq<Room>, h: HazardType) -> Seq<Seq<char>>
    decreases rs.len(),
{
    if rs.len() == 0 {
        Seq::empty()
    } else {
        let c = count_of(rs.last().hazards@, h);
        hazard_entries(rs.drop_last(), h) + if c > 0 {
            seq![int_text(rs.last().id as int) + " (x"@ + int_text(c as int) + ")"@]
        } else {
            Seq::<Seq<char>>::empty()
        }
    }
}

/// A line listing `entries` after `head`, or nothing when there are none.
pub open spec fn list_line(head: Seq<char>, entries: Seq<Seq<char>>, sep: Seq<char>) -> Seq<char> {
    if entries.len() > 0 {
        head + join_spec(entries, sep) + "\n"@
    } else {
        Seq::empty()
    }
}

/// The `[EVENT]` line: the card of the last morning report, if any.
pub open spec fn event_part(s: GameState) -> Seq<char> {
    match s.latest_event {
        Some(c) => "[EVENT] "@ + c.title@ + " - "@ + c.description@ + "\n"@,
        None => Seq::empty(),
    }
}

/// The `[ENEMY]` line: the boss's announced attack, if any.
pub open spec fn enemy_part(s: GameState) -> Seq<char> {
    match s.enemy.next_attack {
        Some(a) => "[ENEMY] "@ + s.enemy.name@ + " targets Room "@ + int_text(a.target_room as int)
            + " with "@ + a.effect@ + "\n"@,
        None => Seq::empty(),
    }
}

/// The `[STATUS]` line: hull, boss HP and the number of hazards.
pub open spec fn status_part(s: GameState) -> Seq<char> {
    "[STATUS] Hull: "@ + int_text(s.hull_integrity as int) + " | Boss HP: "@ + int_text(
        s.enemy.hp as int,
    ) + " | Total Hazards: "@ + int_text(hazard_total(s.rooms@) as int) + "\n"@
}

/// The context printed when a round's planning starts: the event, the active
/// situations, the enemy's intent, fires and water by room, where each player stands
/// with what they carry, the ship's status, and the header of the team's actions.
pub open spec fn context_spec(s: GameState) -> Seq<char> {
    event_part(s) + list_line("[ACTIVE] "@, texts(s.active_situations@), ", "@) + enemy_part(s)
        + list_line("[HAZARDS] Fire: "@, hazard_entries(s.rooms@, HazardType::Fire), ", "@)
        + list_line("[HAZARDS] Water: "@, hazard_entries(s.rooms@, HazardType::Water), ", "@)
        + "[PLAYERS] "@ + join_spec(player_entries(s.players@), " | "@) + "\n"@ + status_part(s)
        + "[TEAM] Actions:\n"@
}

fn count_kind(hs: &Vec<HazardType>, h: HazardType) -> (c: usize)
    ensures
        c == count_of(hs@, h),
{
    let mut c: usize = 0;
    let mut j: usize = 0;
    while j < hs.len()
        invariant
            0 <= j <= hs@.len(),
            c == count_of(hs@.take(j as int), h),
            c <= j,
        decreases hs@.len() - j,
    {
        proof {
            assert(hs@.take(j + 1).drop_last() =~= hs@.take(j as int));
        }
        if hs[j] == h {
            c += 1;
        }
        j += 1;
    }
    proof {
        assert(hs@.take(j as int) =~= hs@);
    }
    c
}

fn nat_string(n: u64) -> (r: String)
    ensures
        r@ == int_text(n as int),
{
    let mut out = String::new();
    append_nat(&mut out, n);
    out
}

fn hazard_list(rooms: &Vec<Room>, h: HazardType) -> (r: Vec<String>)
    ensures
        texts(r@) == hazard_entries(rooms@, h),
{
    let mut r: Vec<String> = Vec::new();
    let mut i: usize = 0;
    while i < rooms.len()
        invariant
            0 <= i <= rooms@.len(),
            texts(r@) == hazard_entries(rooms@.take(i as int), h),
        decreases rooms@.len() - i,
    {
        let room = &rooms[i];
        let c = count_kind(&room.hazards, h);
        proof {
            assert(rooms@.take(i + 1).drop_last() =~= rooms@.take(i as int));
            assert(rooms@.take(i + 1).last() == rooms@[i as int]);
        }
        if c > 0 {
            let mut e = nat_string(room.id as u64);
            e.append(" (x");
            append_nat(&mut e, c as u64);
            e.append(")");
            proof {
                lemma_texts_push(r@, e);
                assert(e@ == int_text(room.id as int) + " (x"@ + int_text(c as int) + ")"@);
                assert(texts(r@).push(e@) =~= hazard_entries(rooms@.take(i as int), h) + seq![e@]);
            }
            r.push(e);
        } else {
            assert(hazard_entries(rooms@.take(i as int), h) + Seq::<Seq<char>>::empty()
                =~= hazard_entries(rooms@.take(i as int), h));
        }
        i += 1;
    }
    proof {
        assert(rooms@.take(i as int) =~= rooms@);
    }
    r
}

fn player_list(players: &Vec<Player>) -> (r: Vec<String>)
    ensures
        texts(r@) == player_entries(players@),
{
    let mut r: Vec<String> = Vec::new();
    let mut i: usize = 0;
    while i < players.len()
        invariant
            0 <= i <= players@.len(),
            texts(r@) == player_entries(players@.take(i as int)),
        decreases players@.len() - i,
    {
        let p = &players[i];
        let mut e = String::from_str(p.id.as_str());
        e.append(": R");
        append_nat(&mut e, p.room_id as u64);
        if p.inventory.len() > 0 {
            e.append(" ");
            let inv = items_text(&p.inventory);
            e.append(inv.as_str());
        }
        proof {
            assert(e@ =~= player_entry(*p));
            lemma_texts_push(r@, e);
            assert(players@.take(i + 1).drop_last() =~= players@.take(i as int));
        }
        r.push(e);
        i += 1;
    }
    proof {
        assert(players@.take(i as int) =~= players@);
    }
    r
}

fn append_list_line(out: &mut String, head: &str, entries: &Vec<String>, sep: &str)
    ensures
        final(out)@ == old(out)@ + list_line(head@, texts(entries@), sep@),
{
    proof {
        lemma_texts_len(entries@);
    }
    if entries.len() > 0 {
        out.append(head);
        let j = join_strings(entries.as_slice(), sep);
        out.append(j.as_str());
        out.append("\n");
    } else {
        assert(old(out)@ + Seq::<char>::empty() =~= old(out)@);
    }
}

fn append_event(out: &mut String, state: &GameState)
    ensures
        final(out)@ == old(out)@ + event_part(*state),
{
    match &state.latest_event {
        Some(c) => {
            out.append("[EVENT] ");
            out.append(c.title.as_str());
            out.append(" - ");
            out.append(c.description.as_str());
            out.append("\n");
        },
        None => {
            assert(old(out)@ + Seq::<char>::empty() =~= old(out)@);
        },
    }
    assert(out@ =~= old(out)@ + event_part(*state));
}

fn append_enemy(out: &mut String, state: &GameState)
    ensures
        final(out)@ == old(out)@ + enemy_part(*state),
{
    match &state.enemy.next_attack {
        Some(a) => {
            out.append("[ENEMY] ");
            out.append(state.enemy.name.as_str());
            out.append(" targets Room ");
            append_nat(out, a.target_room as u64);
            out.append(" with ");
            out.append(a.effect.as_str());
            out.append("\n");
        },
        None => {
            assert(old(out)@ + Seq::<char>::empty() =~= old(out)@);
        },
    }
    assert(out@ =~= old(out)@ + enemy_part(*state));
}

fn append_players(out: &mut String, state: &GameState)
    ensures
        final(out)@ == old(out)@ + "[PLAYERS] "@ + join_spec(player_entries(state.players@), " | "@)
            + "\n"@,
{
    let players = player_list(&state.players);
    out.append("[PLAYERS] ");
    let pj = join_strings(players.as_slice(), " | ");
    out.append(pj.as_str());
    out.append("\n");
}

fn append_status(out: &mut String, state: &GameState)
    requires
        hazard_total(state.rooms@) <= usize::MAX,
    ensures
        final(out)@ == old(out)@ + status_part(*state),
{
    out.append("[STATUS] Hull: ");
    append_int(out, state.hull_integrity as i64);
    out.append(" | Boss HP: ");
    append_int(out, state.enemy.hp as i64);
    out.append(" | Total Hazards: ");
    let total = count_hazards(state);
    append_nat(out, total as u64);
    out.append("\n");
    assert(out@ =~= old(out)@ + status_part(*state));
}

/// The context printed when a round's planning starts (see [`context_spec`]).
pub fn format_planning_context(state: &GameState) -> (r: String)
    requires
        hazard_total(state.rooms@) <= usize::MAX,
    ensures
        r@ == context_spec(*state),
{
    let mut out = String::new();
    append_event(&mut out, state);
    append_list_line(&mut out, "[ACTIVE] ", &state.active_situations, ", ");
    append_enemy(&mut out, state);
    let fires = hazard_list(&state.rooms, HazardType::Fire);
    append_list_line(&mut out, "[HAZARDS] Fire: ", &fires, ", ");
    let waters = hazard_list(&state.rooms, HazardType::Water);
    append_list_line(&mut out, "[HAZARDS] Water: ", &waters, ", ");
    append_players(&mut out, state);
    append_status(&mut out, state);
    out.append("[TEAM] Actions:\n");
    assert(out@ =~= context_spec(*state));
    out
}

} // verus!

verus! {

/// The running account of a replay: the rounds already closed, the text of the
/// round under way, and what the round started from.
pub struct TrajectoryWriter {
    /// The text of each closed round, in order.
    pub rounds: Vec<String>,
    /// The text of the round under way.
    pub buffer: String,
    /// The round under way.
    pub round: u32,
    /// The hull when the round started.
    pub start_hull: i32,
    /// The number of hazards when the round started.
    pub start_hazards: usize,
    /// The boss last seen.
    pub boss: String,
    /// The phase last seen.
    pub phase: GamePhase,
}

/// The value of a [`TrajectoryWriter`].
pub struct WriterView {
    pub rounds: Seq<Seq<char>>,
    pub buffer: Seq<char>,
    pub round: u32,
    pub start_hull: i32,
    pub start_hazards: nat,
    pub boss: Seq<char>,
    pub phase: GamePhase,
}

/// The value of a writer.
pub open spec fn writer_view(w: TrajectoryWriter) -> WriterView {
    WriterView {
        rounds: texts(w.rounds@),
        buffer: w.buffer@,
        round: w.round,
        start_hull: w.start_hull,
        start_hazards: w.start_hazards as nat,
        boss: w.boss@,
        phase: w.phase,
    }
}

/// The header of round `n`.
pub open spec fn round_header(n: u32) -> Seq<char> {
    "\n--- ROUND "@ + int_text(n as int) + " ---\n"@
}

/// The account as it starts from `s`: a title, the starting hull, boss and crew
/// size, and, when `s` is in planning, the first round's header and context.
pub open spec fn opening_spec(s: GameState) -> WriterView {
    WriterView {
        rounds: Seq::empty(),
        buffer: "\n=== BEST TRAJECTORY FOUND ===\n"@ + "Start: Hull "@ + int_text(s.hull_integrity as int)
            + ", Boss "@ + s.enemy.name@ + ", Playersィ "@ + int_text(s.players@.len() as int) + "\n"@
            + if s.phase == GamePhase::TacticalPlanning {
            round_header(s.turn_count) + context_spec(s)
        } else {
            Seq::<char>::empty()
        },
        round: s.turn_count,
        start_hull: s.hull_integrity,
        start_hazards: hazard_total(s.rooms@),
        boss: s.enemy.name@,
        phase: s.phase,
    }
}

/// The line announcing `player`'s action before it is applied. A macro plan shows as
/// what it plans (its `[MACRO] ` tags removed), a pass as a pass, a ready vote not at
/// all, and any other action by `debug`, its `{:?}` text.
pub open spec fn announce_spec(player: Seq<char>, action: ActionView, debug: Seq<char>) -> Seq<char> {
    match action {
        ActionView::Chat { message } => if starts_with(message, "[MACRO]"@) {
            "\n  "@ + player + " plans: "@ + remove_all(message, "[MACRO] "@) + "\n"@
        } else {
            Seq::empty()
        },
        ActionView::VoteReady { .. } => Seq::empty(),
        ActionView::Pass => "  "@ + player + " passes.\n"@,
        _ => "    -> "@ + debug + " ("@ + player + ")\n"@,
    }
}

/// The banner shown when the boss changes.
pub open spec fn boss_banner(old_boss: Seq<char>, new_boss: Seq<char>) -> Seq<char> {
    "\n**************************************************\n"@ + "⚔️  BOSS DEFEATED: "@ + old_boss + "  ⚔️\n"@ + "💀  NEW CHALLENGER: "@ + new_boss
        + "  💀\n"@ + "**************************************************\n\n"@
}

/// What starts a new round's text after its header: the planning context, or in a
/// morning report the event drawn.
pub open spec fn round_opening(s: GameState) -> Seq<char> {
    if s.phase == GamePhase::TacticalPlanning {
        context_spec(s)
    } else if s.phase == GamePhase::MorningReport {
        event_part(s)
    } else {
        Seq::empty()
    }
}

/// The account after an action was applied and the game reached `s`: a banner if
/// the boss changed; if the round advanced, the round under way is closed with its
/// results and a new one is opened; otherwise, if the game just ended, a line says how.
pub open spec fn applied_spec(t: WriterView, s: GameState) -> WriterView {
    let buffer = if s.enemy.name@ != t.boss {
        t.buffer + boss_banner(t.boss, s.enemy.name@)
    } else {
        t.buffer
    };
    if s.turn_count > t.round {
        WriterView {
            rounds: t.rounds.push(
                buffer + results_spec(
                    t.start_hull as int,
                    s.hull_integrity as int,
                    t.start_hazards as int,
                    hazard_total(s.rooms@) as int,
                ),
            ),
            buffer: round_header(s.turn_count) + round_opening(s),
            round: s.turn_count,
            start_hull: s.hull_integrity,
            start_hazards: hazard_total(s.rooms@),
            boss: s.enemy.name@,
            phase: s.phase,
        }
    } else {
        WriterView {
            buffer: if s.phase != t.phase && is_over(s.phase) {
                buffer + "\n=== GAME ENDED: "@ + phase_name(s.phase) + " ===\n"@
            } else {
                buffer
            },
            boss: s.enemy.name@,
            phase: s.phase,
            ..t
        }
    }
}

/// The line recording that `player`'s action (`debug`, its `{:?}` text) was refused
/// with `error`.
pub open spec fn failure_line(player: Seq<char>, debug: Seq<char>, error: Seq<char>) -> Seq<char> {
    "  ERROR REPLAYING: "@ + player + " failed to "@ + debug + ": "@ + error + "\n"@
}

/// The rounds of the finished account: the closed rounds, then the last one with a
/// line naming the phase the replay ended in.
pub open spec fn finish_spec(t: WriterView) -> Seq<Seq<char>> {
    t.rounds.push(t.buffer + "\n=== LAST PHASE: "@ + phase_name(t.phase) + " ===\n"@)
}

} // verus!

verus! {

fn append_round_header(out: &mut String, n: u32)
    ensures
        final(out)@ == old(out)@ + round_header(n),
{
    out.append("\n--- ROUND ");
    append_nat(out, n as u64);
    out.append(" ---\n");
}

/// `p` as a vector of characters, for the text scans.
fn macro_tag() -> (v: Vec<char>)
    ensures
        v@ == "[MACRO]"@,
        v@.len() == 7,
{
    proof {
        reveal_strlit("[MACRO]");
    }
    chars_of("[MACRO]")
}

fn macro_prefix() -> (v: Vec<char>)
    ensures
        v@ == "[MACRO] "@,
        v@.len() == 8,
{
    proof {
        reveal_strlit("[MACRO] ");
    }
    chars_of("[MACRO] ")
}

impl TrajectoryWriter {
    /// Opens the account of a replay from its starting state (see [`opening_spec`]).
    pub fn new(state: &GameState) -> (w: TrajectoryWriter)
        requires
            hazard_total(state.rooms@) <= usize::MAX,
        ensures
            writer_view(w) == opening_spec(*state),
    {
        let hazards = count_hazards(state);
        let mut buf = String::from_str("\n=== BEST TRAJECTORY FOUND ===\n");
        buf.append("Start: Hull ");
        append_int(&mut buf, state.hull_integrity as i64);
        buf.append(", Boss ");
        buf.append(state.enemy.name.as_str());
        buf.append(", Playersィ ");
        append_nat(&mut buf, state.players.len() as u64);
        buf.append("\n");
        let ghost head = buf@;
        if state.phase == GamePhase::TacticalPlanning {
            append_round_header(&mut buf, state.turn_count);
            let ctx = format_planning_context(state);
            buf.append(ctx.as_str());
        }
        let w = TrajectoryWriter {
            rounds: Vec::new(),
            buffer: buf,
            round: state.turn_count,
            start_hull: state.hull_integrity,
            start_hazards: hazards,
            boss: state.enemy.name.clone(),
            phase: state.phase,
        };
        proof {
            assert(texts(w.rounds@) =~= Seq::<Seq<char>>::empty());
            assert(w.buffer@ =~= opening_spec(*state).buffer);
        }
        w
    }

    /// Records the announcement of `player`'s action before it is applied; `debug`
    /// is the action's `{:?}` text (see [`announce_spec`]).
    pub fn announce(&mut self, player: &str, action: &GameAction, debug: &str)
        ensures
            writer_view(*final(self)) == (WriterView {
                buffer: writer_view(*old(self)).buffer + announce_spec(player@, action@, debug@),
                ..writer_view(*old(self))
            }),
    {
        let ghost before = self.buffer@;
        match action {
            GameAction::Chat { message } => {
                let chars = chars_of(message.as_str());
                let tag = macro_tag();
                if window_starts_with(&chars, 0, chars.len(), &tag) {
                    self.buffer.append("\n  ");
                    self.buffer.append(player);
                    self.buffer.append(" plans: ");
                    let shown = remove_all_string(message.as_str(), &macro_prefix());
                    self.buffer.append(shown.as_str());
                    self.buffer.append("\n");
                    proof {
                        assert(chars@.subrange(0, chars@.len() as int) =~= message@);
                    }
                } else {
                    proof {
                        assert(chars@.subrange(0, chars@.len() as int) =~= message@);
                        assert(before + Seq::<char>::empty() =~= before);
                    }
                }
            },
            GameAction::VoteReady { .. } => {
                assert(before + Seq::<char>::empty() =~= before);
            },
            GameAction::Pass => {
                self.buffer.append("  ");
                self.buffer.append(player);
                self.buffer.append(" passes.\n");
            },
            _ => {
                self.buffer.append("    -> ");
                self.buffer.append(debug);
                self.buffer.append(" (");
                self.buffer.append(player);
                self.buffer.append(")\n");
            },
        }
        assert(self.buffer@ =~= before + announce_spec(player@, action@, debug@));
    }

    /// Records that an action was applied and the game, brought to its next decision,
    /// is now `state` (see [`applied_spec`]).
    pub fn applied(&mut self, state: &GameState)
        requires
            hazard_total(state.rooms@) <= usize::MAX,
        ensures
            writer_view(*final(self)) == applied_spec(writer_view(*old(self)), *state),
    {
        let ghost t = writer_view(*self);
        if !text_equal(state.enemy.name.as_str(), self.boss.as_str()) {
            self.buffer.append("\n**************************************************\n");
            self.buffer.append("⚔️  BOSS DEFEATED: ");
            self.buffer.append(self.boss.as_str());
            self.buffer.append("  ⚔️\n");
            self.buffer.append("💀  NEW CHALLENGER: ");
            self.buffer.append(state.enemy.name.as_str());
            self.buffer.append("  💀\n");
            self.buffer.append("**************************************************\n\n");
            self.boss = state.enemy.name.clone();
            assert(self.buffer@ =~= t.buffer + boss_banner(t.boss, state.enemy.name@));
        }
        let ghost buffer = self.buffer@;
        if state.turn_count > self.round {
            let hazards = count_hazards(state);
            let results = format_results(
                self.start_hull,
                state.hull_integrity,
                self.start_hazards,
                hazards,
            );
            self.buffer.append(results.as_str());
            let mut next = String::new();
            append_round_header(&mut next, state.turn_count);
            if state.phase == GamePhase::TacticalPlanning {
                let ctx = format_planning_context(state);
                next.append(ctx.as_str());
            } else if state.phase == GamePhase::MorningReport {
                append_event(&mut next, state);
            }
            assert(next@ =~= round_header(state.turn_count) + round_opening(*state));
            std::mem::swap(&mut self.buffer, &mut next);
            proof {
                lemma_texts_push(self.rounds@, next);
            }
            self.rounds.push(next);
            self.round = state.turn_count;
            self.start_hull = state.hull_integrity;
            self.start_hazards = hazards;
        } else if state.phase != self.phase && (state.phase == GamePhase::GameOver
            || state.phase == GamePhase::Victory) {
            self.buffer.append("\n=== GAME ENDED: ");
            self.buffer.append(phase_text(state.phase));
            self.buffer.append(" ===\n");
            assert(self.buffer@ =~= buffer + "\n=== GAME ENDED: "@ + phase_name(state.phase)
                + " ===\n"@);
        }
        self.phase = state.phase;
        assert(writer_view(*self) =~= applied_spec(t, *state));
    }

    /// Records that `player`'s action (`debug`, its `{:?}` text) was refused with
    /// `error`; the game state is unchanged.
    pub fn failed(&mut self, player: &str, debug: &str, error: &str)
        ensures
            writer_view(*final(self)) == (WriterView {
                buffer: writer_view(*old(self)).buffer + failure_line(player@, debug@, error@),
                ..writer_view(*old(self))
            }),
    {
        let ghost before = self.buffer@;
        self.buffer.append("  ERROR REPLAYING: ");
        self.buffer.append(player);
        self.buffer.append(" failed to ");
        self.buffer.append(debug);
        self.buffer.append(": ");
        self.buffer.append(error);
        self.buffer.append("\n");
        assert(self.buffer@ =~= before + failure_line(player@, debug@, error@));
    }

    /// Closes the account and returns the text of each round (see [`finish_spec`]).
    pub fn finish(self) -> (r: Vec<String>)
        ensures
            texts(r@) == finish_spec(writer_view(self)),
    {
        let mut rounds = self.rounds;
        let mut last = self.buffer;
        last.append("\n=== LAST PHASE: ");
        last.append(phase_text(self.phase));
        last.append(" ===\n");
        proof {
            lemma_texts_push(rounds@, last);
        }
        rounds.push(last);
        rounds
    }
}

} // verus!

verus! {

/// The account only grows: applying an action keeps every closed round as it was and
/// closes at most one more, exactly when the game moved to a later round.
pub proof fn lemma_closed_rounds_stay(t: WriterView, s: GameState)
    ensures
        t.rounds.is_prefix_of(applied_spec(t, s).rounds),
        applied_spec(t, s).rounds.len() == t.rounds.len() + if s.turn_count > t.round {
            1int
        } else {
            0int
        },
        applied_spec(t, s).round >= t.round,
{
    let u = applied_spec(t, s);
    assert forall|i: int| 0 <= i < t.rounds.len() implies u.rounds[i] == t.rounds[i] by {}
}

/// The end of the game is always logged, whichever way it ends: when an applied state
/// stays in the round under way and the game has just been lost or won, the text of
/// the round ends with a line naming how it ended; when it stays in the round, the
/// boss is unchanged and the game has not just ended, nothing is added.
pub proof fn lemma_game_end_logged(t: WriterView, s: GameState)
    requires
        s.turn_count <= t.round,
    ensures
        ({
            let b = applied_spec(t, s).buffer;
            let line = "\n=== GAME ENDED: "@ + phase_name(s.phase) + " ===\n"@;
            (s.phase == GamePhase::GameOver || s.phase == GamePhase::Victory) && s.phase != t.phase
                ==> b.len() >= line.len() && b.subrange(b.len() - line.len(), b.len() as int) == line
        }),
        ((s.phase != GamePhase::GameOver && s.phase != GamePhase::Victory) || s.phase == t.phase)
            && s.enemy.name@ == t.boss ==> applied_spec(t, s).buffer == t.buffer,
        applied_spec(t, s).rounds == t.rounds,
{
    let b = applied_spec(t, s).buffer;
    let line = "\n=== GAME ENDED: "@ + phase_name(s.phase) + " ===\n"@;
    if (s.phase == GamePhase::GameOver || s.phase == GamePhase::Victory) && s.phase != t.phase {
        let pre = if s.enemy.name@ != t.boss {
            t.buffer + boss_banner(t.boss, s.enemy.name@)
        } else {
            t.buffer
        };
        assert(b =~= pre + line);
        assert(b.subrange(b.len() - line.len(), b.len() as int) =~= line);
    }
}

/// Finishing keeps every closed round and adds the one under way as the last.
pub proof fn lemma_finish_keeps_rounds(t: WriterView)
    ensures
        t.rounds.is_prefix_of(finish_spec(t)),
        finish_spec(t).len() == t.rounds.len() + 1,
        finish_spec(t).last().subrange(0, t.buffer.len() as int) == t.buffer,
{
    assert(finish_spec(t).last().subrange(0, t.buffer.len() as int) =~= t.buffer);
}

} // verus!
