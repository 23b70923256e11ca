//! The failure report of a solution check: what failed, a hint when a round was left
//! with AP to spend, and the state of the ship when the check stopped.

use vstd::prelude::*;
use crate::model::{GamePhase, HazardType, ItemType};
use crate::replay::{append_int, append_nat, int_text};
use crate::text::text_equal;
use crate::trajectory::{phase_name, phase_text};
use crate::verification::{
    hazard_emojis, hazards_emoji_text, item_emojis, items_emoji_text,
};

verus! {

broadcast use vstd::string::group_string_axioms;

/// A situation card in play: its title, and its id as `{:?}` writes it.
pub struct SituationEntry {
    pub title: String,
    pub id: String,
}

/// A room as the report shows it. `system` and `neighbors` are the room's system and
/// neighbour list as `{:?}` writes them.
pub struct RoomEntry {
    pub id: u32,
    pub name: String,
    pub system: Option<String>,
    pub neighbors: String,
    pub hazards: Vec<HazardType>,
    pub items: Vec<ItemType>,
}

/// A crew member as the report shows them; `status` is their status list as `{:?}`
/// writes it.
pub struct CrewEntry {
    pub id: String,
    pub room_id: u32,
    pub ap: i32,
    pub hp: i32,
    pub inventory: Vec<ItemType>,
    pub status: String,
}

/// What a failure report is made from: how the check ended and the final state.
pub struct FailureReport {
    pub success: bool,
    pub round: u32,
    pub phase: GamePhase,
    /// The player and the action (its `{:?}` text) that failed, if one did.
    pub failed_action: Option<(String, String)>,
    /// The game's error, as its `{}` text.
    pub error: Option<String>,
    /// The game's error was that the player had too little AP.
    pub not_enough_ap: bool,
    pub hull: i32,
    pub enemy_name: String,
    pub enemy_hp: i32,
    pub situations: Vec<SituationEntry>,
    pub rooms: Vec<RoomEntry>,
    pub crew: Vec<CrewEntry>,
}

/// How many crew members other than `pid` still have AP.
pub open spec fn others_with_ap(crew: Seq<CrewEntry>, pid: Seq<char>) -> nat
    decreases crew.len(),
{
    if crew.len() == 0 {
        0
    } else {
        others_with_ap(crew.drop_last(), pid) + if crew.last().id@ != pid && crew.last().ap > 0 {
            1nat
        } else {
            0nat
        }
    }
}

/// The first crew member other than `pid` who still has AP, if any.
pub open spec fn first_other_with_ap(crew: Seq<CrewEntry>, pid: Seq<char>) -> Option<int>
    decreases crew.len(),
{
    if crew.len() == 0 {
        None
    } else if crew[0].id@ != pid && crew[0].ap > 0 {
        Some(0)
    } else {
        match first_other_with_ap(crew.drop_first(), pid) {
            Some(i) => Some(i + 1),
            None => None,
        }
    }
}

/// The hint for an action refused for want of AP: when exactly one other crew member
/// still has AP, the round is not over and they are named.
pub open spec fn hint_spec(crew: Seq<CrewEntry>, pid: Seq<char>) -> Seq<char> {
    if others_with_ap(crew, pid) == 1 {
        let p = crew[first_other_with_ap(crew, pid)->0];
        "Hint: Round not over. "@ + p.id@ + " still has "@ + int_text(p.ap as int) + " AP.\n"@
    } else {
        Seq::empty()
    }
}

/// The line of a situation card.
pub open spec fn situation_line(s: SituationEntry) -> Seq<char> {
    "  - "@ + s.title@ + " ("@ + s.id@ + ")\n"@
}

/// The line of a room.
pub open spec fn room_line(r: RoomEntry) -> Seq<char> {
    "  Room "@ + int_text(r.id as int) + " ("@ + r.name@ + "): System="@ + match r.system {
        Some(s) => s@,
        None => "Empty"@,
    } + " | Neighbors="@ + r.neighbors@ + " | Hazards=["@ + hazard_emojis(r.hazards@) + "] | Items=["@
        + item_emojis(r.items@) + "]\n"@
}

/// The line of a crew member.
pub open spec fn crew_line(p: CrewEntry) -> Seq<char> {
    "  "@ + p.id@ + ": Room "@ + int_text(p.room_id as int) + " | AP "@ + int_text(p.ap as int)
        + " | HP "@ + int_text(p.hp as int) + " | Inv ["@ + item_emojis(p.inventory@) + "] | Status "@
        + p.status@ + "\n"@
}

/// The situation lines, in order.
pub open spec fn situation_lines(s: Seq<SituationEntry>) -> Seq<char>
    decreases s.len(),
{
    if s.len() == 0 {
        Seq::empty()
    } else {
        situation_lines(s.drop_last()) + situation_line(s.last())
    }
}

/// The room lines, in order.
pub open spec fn room_lines(s: Seq<RoomEntry>) -> Seq<char>
    decreases s.len(),
{
    if s.len() == 0 {
        Seq::empty()
    } else {
        room_lines(s.drop_last()) + room_line(s.last())
    }
}

/// The crew lines, in order.
pub open spec fn crew_lines(s: Seq<CrewEntry>) -> Seq<char>
    decreases s.len(),
{
    if s.len() == 0 {
        Seq::empty()
    } else {
        crew_lines(s.drop_last()) + crew_line(s.last())
    }
}

/// The part of the report that says what went wrong: the failed action, the error and
/// the hint; or, when no action failed, how the game ended and the error, if any.
pub open spec fn cause_spec(r: FailureReport) -> Seq<char> {
    let error_line = match r.error {
        Some(e) => "Error: "@ + e@ + "\n"@,
        None => Seq::empty(),
    };
    match r.failed_action {
        Some((pid, act)) => "Failed Action: "@ + pid@ + " performs "@ + act@ + "\n"@ + match r.error {
            Some(e) => error_line + if r.not_enough_ap {
                hint_spec(r.crew@, pid@)
            } else {
                Seq::empty()
            },
            None => Seq::empty(),
        },
        None => (if r.phase == GamePhase::GameOver {
            "Result: DEFEAT (Ship Destroyed)\n"@
        } else {
            "Result: INCOMPLETE (Simulation ended without Victory)\n"@
        }) + error_line,
    }
}

/// The failure report: nothing for a successful check; otherwise the round and phase,
/// the cause, and the state context (hull and enemy, situations, rooms, crew).
pub open spec fn summary_spec(r: FailureReport) -> Option<Seq<char>> {
    if r.success {
        None
    } else {
        Some(
            "\n=== FAILURE SUMMARY ===\n"@ + "Round: "@ + int_text(r.round as int) + "\n"@ + "Phase: "@
                + phase_name(r.phase) + "\n"@ + cause_spec(r) + "\n-- State Context --\n"@
                + "Hull: "@ + int_text(r.hull as int) + " | Enemy: "@ + r.enemy_name@ + " ("@
                + int_text(r.enemy_hp as int) + " HP)\n"@ + "Active Situations:\n"@ + situation_lines(
                r.situations@,
            ) + "Map State:\n"@ + room_lines(r.rooms@) + "Players:\n"@ + crew_lines(r.crew@)
                + "=======================\n"@,
        )
    }
}

/// The one crew member other than `pid` who still has AP, if there is exactly one.
pub fn lone_crew_with_ap(crew: &Vec<CrewEntry>, pid: &str) -> (r: Option<usize>)
    ensures
        match r {
            Some(i) => i < crew@.len() && others_with_ap(crew@, pid@) == 1 && first_other_with_ap(
                crew@,
                pid@,
            ) == Some(i as int),
            None => others_with_ap(crew@, pid@) != 1,
        },
{
    let mut found: Option<usize> = None;
    let mut count: usize = 0;
    let mut i: usize = 0;
    while i < crew.len()
        invariant
            0 <= i <= crew@.len(),
            count == others_with_ap(crew@.take(i as int), pid@),
            count <= i,
            found is Some <==> count >= 1,
            found matches Some(k) ==> k < i && first_other_with_ap(crew@, pid@) == Some(k as int),
            found is None ==> forall|k: int| 0 <= k < i ==> !(crew@[k].id@ != pid@ && crew@[k].ap > 0),
        decreases crew@.len() - i,
    {
        proof {
            assert(crew@.take(i + 1).drop_last() =~= crew@.take(i as int));
        }
        let p = &crew[i];
        if !text_equal(p.id.as_str(), pid) && p.ap > 0 {
            count += 1;
            if found.is_none() {
                proof {
                    lemma_first_other(crew@, pid@, i as int);
                }
                found = Some(i);
            }
        }
        i += 1;
    }
    proof {
        assert(crew@.take(i as int) =~= crew@);
    }
    if count == 1 {
        found
    } else {
        None
    }
}

proof fn lemma_first_other(crew: Seq<CrewEntry>, pid: Seq<char>, i: int)
    requires
        0 <= i < crew.len(),
        crew[i].id@ != pid && crew[i].ap > 0,
        forall|k: int| 0 <= k < i ==> !(crew[k].id@ != pid && crew[k].ap > 0),
    ensures
        first_other_with_ap(crew, pid) == Some(i),
    decreases i,
{
    if i > 0 {
        lemma_first_other(crew.drop_first(), pid, i - 1);
    }
}

fn append_hint(out: &mut String, crew: &Vec<CrewEntry>, pid: &str)
    ensures
        final(out)@ == old(out)@ + hint_spec(crew@, pid@),
{
    match lone_crew_with_ap(crew, pid) {
        Some(i) => {
            let p = &crew[i];
            out.append("Hint: Round not over. ");
            out.append(p.id.as_str());
            out.append(" still has ");
            append_int(out, p.ap as i64);
            out.append(" AP.\n");
        },
        None => {
            assert(old(out)@ + Seq::<char>::empty() =~= old(out)@);
        },
    }
}

fn append_cause(out: &mut String, r: &FailureReport)
    ensures
        final(out)@ == old(out)@ + cause_spec(*r),
{
    let ghost start = out@;
    match &r.failed_action {
        Some((pid, act)) => {
            out.append("Failed Action: ");
            out.append(pid.as_str());
            out.append(" performs ");
            out.append(act.as_str());
            out.append("\n");
            let ghost mid = out@;
            match &r.error {
                Some(e) => {
                    out.append("Error: ");
                    out.append(e.as_str());
                    out.append("\n");
                    if r.not_enough_ap {
                        append_hint(out, &r.crew, pid.as_str());
                    } else {
                        assert(out@ + Seq::<char>::empty() =~= out@);
                    }
                },
                None => {
                    assert(mid + Seq::<char>::empty() =~= mid);
                },
            }
        },
        None => {
            if r.phase == GamePhase::GameOver {
                out.append("Result: DEFEAT (Ship Destroyed)\n");
            } else {
                out.append("Result: INCOMPLETE (Simulation ended without Victory)\n");
            }
            let ghost mid = out@;
            match &r.error {
                Some(e) => {
                    out.append("Error: ");
                    out.append(e.as_str());
                    out.append("\n");
                },
                None => {
                    assert(mid + Seq::<char>::empty() =~= mid);
                },
            }
        },
    }
    assert(out@ =~= start + cause_spec(*r));
}

fn append_situations(out: &mut String, s: &Vec<SituationEntry>)
    ensures
        final(out)@ == old(out)@ + situation_lines(s@),
{
    let mut i: usize = 0;
    while i < s.len()
        invariant
            0 <= i <= s@.len(),
            out@ == old(out)@ + situation_lines(s@.take(i as int)),
        decreases s@.len() - i,
    {
        let ghost before = out@;
        out.append("  - ");
        out.append(s[i].title.as_str());
        out.append(" (");
        out.append(s[i].id.as_str());
        out.append(")\n");
        proof {
            assert(s@.take(i + 1).drop_last() =~= s@.take(i as int));
            assert(out@ =~= before + situation_line(s@[i as int]));
        }
        i += 1;
    }
    proof {
        assert(s@.take(i as int) =~= s@);
    }
}

fn append_rooms(out: &mut String, s: &Vec<RoomEntry>)
    ensures
        final(out)@ == old(out)@ + room_lines(s@),
{
    let mut i: usize = 0;
    while i < s.len()
        invariant
            0 <= i <= s@.len(),
            out@ == old(out)@ + room_lines(s@.take(i as int)),
        decreases s@.len() - i,
    {
        let ghost before = out@;
        let r = &s[i];
        out.append("  Room ");
        append_nat(out, r.id as u64);
        out.append(" (");
        out.append(r.name.as_str());
        out.append("): System=");
        match &r.system {
            Some(sys) => out.append(sys.as_str()),
            None => out.append("Empty"),
        }
        out.append(" | Neighbors=");
        out.append(r.neighbors.as_str());
        out.append(" | Hazards=[");
        let hz = hazards_emoji_text(&r.hazards);
        out.append(hz.as_str());
        out.append("] | Items=[");
        let it = items_emoji_text(&r.items);
        out.append(it.as_str());
        out.append("]\n");
        proof {
            assert(s@.take(i + 1).drop_last() =~= s@.take(i as int));
            assert(out@ =~= before + room_line(*r));
        }
        i += 1;
    }
    proof {
        assert(s@.take(i as int) =~= s@);
    }
}

fn append_crew(out: &mut String, s: &Vec<CrewEntry>)
    ensures
        final(out)@ == old(out)@ + crew_lines(s@),
{
    let mut i: usize = 0;
    while i < s.len()
        invariant
            0 <= i <= s@.len(),
            out@ == old(out)@ + crew_lines(s@.take(i as int)),
        decreases s@.len() - i,
    {
        let ghost before = out@;
        let p = &s[i];
        out.append("  ");
        out.append(p.id.as_str());
        out.append(": Room ");
        append_nat(out, p.room_id as u64);
        out.append(" | AP ");
        append_int(out, p.ap as i64);
        out.append(" | HP ");
        append_int(out, p.hp as i64);
        out.append(" | Inv [");
        let inv = items_emoji_text(&p.inventory);
        out.append(inv.as_str());
        out.append("] | Status ");
        out.append(p.status.as_str());
        out.append("\n");
        proof {
            assert(s@.take(i + 1).drop_last() =~= s@.take(i as int));
            assert(out@ =~= before + crew_line(*p));
        }
        i += 1;
    }
    proof {
        assert(s@.take(i as int) =~= s@);
    }
}

/// The failure report of a check (see [`summary_spec`]).
pub fn failure_summary(r: &FailureReport) -> (s: Option<String>)
    ensures
        match s {
            Some(t) => summary_spec(*r) == Some(t@),
            None => summary_spec(*r) is None,
        },
{
    if r.success {
        return None;
    }
    let mut out = String::from_str("\n=== FAILURE SUMMARY ===\n");
    out.append("Round: ");
    append_nat(&mut out, r.round as u64);
    out.append("\n");
    out.append("Phase: ");
    out.append(phase_text(r.phase));
    out.append("\n");
    append_cause(&mut out, r);
    out.append("\n-- State Context --\n");
    out.append("Hull: ");
    append_int(&mut out, r.hull as i64);
    out.append(" | Enemy: ");
    out.append(r.enemy_name.as_str());
    out.append(" (");
    append_int(&mut out, r.enemy_hp as i64);
    out.append(" HP)\n");
    out.append("Active Situations:\n");
    append_situations(&mut out, &r.situations);
    out.append("Map State:\n");
    append_rooms(&mut out, &r.rooms);
    out.append("Players:\n");
    append_crew(&mut out, &r.crew);
    out.append("=======================\n");
    assert(out@ =~= summary_spec(*r)->0);
    Some(out)
}

} // verus!
