//! A plain-value model of the parts of a game state that the solver reads.

use vstd::prelude::*;
use crate::text::{lemma_seq_lt_trans, seq_lt, text_less};

verus! {

/// The phase the game is in.
#[derive(Debug, Clone, Copy, PartialEq, Eq, Hash, Structural)]
pub enum GamePhase {
    Lobby,
    MorningReport,
    EnemyTelegraph,
    TacticalPlanning,
    Execution,
    EnemyAction,
    GameOver,
    Victory,
}

/// A hazard token lying in a room.
#[derive(Debug, Clone, Copy, PartialEq, Eq, Hash, Structural)]
pub enum HazardType {
    Fire,
    Water,
}

/// An item that can lie in a room or be carried.
#[derive(Debug, Clone, Copy, PartialEq, Eq, Hash, Structural)]
pub enum ItemType {
    Peppernut,
    Extinguisher,
    Keychain,
    Wheelbarrow,
    Mitre,
}

/// A status effect on a player.
#[derive(Debug, Clone, Copy, PartialEq, Eq, Hash, Structural)]
pub enum PlayerStatus {
    Fainted,
    Silenced,
    Sick,
}

/// An action a player can take during planning.
#[derive(Debug, Clone, PartialEq, Eq, Hash)]
pub enum GameAction {
    Move { to_room: u32 },
    Bake,
    Shoot,
    Throw { target_player: String, item_index: usize },
    Extinguish,
    Repair,
    PickUp { item_type: ItemType },
    Drop { item_index: usize },
    Pass,
    VoteReady { ready: bool },
    RaiseShields,
    EvasiveManeuvers,
    Lookout,
    Interact,
    Revive { target_player: String },
    FirstAid { target_player: String },
    Chat { message: String },
    Undo { action_id: u64 },
}

/// The mathematical value of a [`GameAction`]: text fields as character sequences.
pub enum ActionView {
    Move { to_room: u32 },
    Bake,
    Shoot,
    Throw { target_player: Seq<char>, item_index: usize },
    Extinguish,
    Repair,
    PickUp { item_type: ItemType },
    Drop { item_index: usize },
    Pass,
    VoteReady { ready: bool },
    RaiseShields,
    EvasiveManeuvers,
    Lookout,
    Interact,
    Revive { target_player: Seq<char> },
    FirstAid { target_player: Seq<char> },
    Chat { message: Seq<char> },
    Undo { action_id: u64 },
}

impl View for GameAction {
    type V = ActionView;

    open spec fn view(&self) -> ActionView {
        match self {
            GameAction::Move { to_room } => ActionView::Move { to_room: *to_room },
            GameAction::Bake => ActionView::Bake,
            GameAction::Shoot => ActionView::Shoot,
            GameAction::Throw { target_player, item_index } => ActionView::Throw {
                target_player: target_player@,
                item_index: *item_index,
            },
            GameAction::Extinguish => ActionView::Extinguish,
            GameAction::Repair => ActionView::Repair,
            GameAction::PickUp { item_type } => ActionView::PickUp { item_type: *item_type },
            GameAction::Drop { item_index } => ActionView::Drop { item_index: *item_index },
            GameAction::Pass => ActionView::Pass,
            GameAction::VoteReady { ready } => ActionView::VoteReady { ready: *ready },
            GameAction::RaiseShields => ActionView::RaiseShields,
            GameAction::EvasiveManeuvers => ActionView::EvasiveManeuvers,
            GameAction::Lookout => ActionView::Lookout,
            GameAction::Interact => ActionView::Interact,
            GameAction::Revive { target_player } => ActionView::Revive {
                target_player: target_player@,
            },
            GameAction::FirstAid { target_player } => ActionView::FirstAid {
                target_player: target_player@,
            },
            GameAction::Chat { message } => ActionView::Chat { message: message@ },
            GameAction::Undo { action_id } => ActionView::Undo { action_id: *action_id },
        }
    }
}

/// Values that can be copied into one of the same value.
pub trait Duplicate: Sized + View {
    /// A value whose view is that of `self`.
    fn duplicate(&self) -> (r: Self)
        ensures
            r@ == self@,
    ;
}

impl Duplicate for GameAction {
    fn duplicate(&self) -> (r: GameAction) {
        copy_action(self)
    }
}

/// A copy of the action, equal to it.
pub fn copy_action(a: &GameAction) -> (r: GameAction)
    ensures
        r == *a,
{
    match a {
        GameAction::Move { to_room } => GameAction::Move { to_room: *to_room },
        GameAction::Bake => GameAction::Bake,
        GameAction::Shoot => GameAction::Shoot,
        GameAction::Throw { target_player, item_index } => GameAction::Throw {
            target_player: target_player.clone(),
            item_index: *item_index,
        },
        GameAction::Extinguish => GameAction::Extinguish,
        GameAction::Repair => GameAction::Repair,
        GameAction::PickUp { item_type } => GameAction::PickUp { item_type: *item_type },
        GameAction::Drop { item_index } => GameAction::Drop { item_index: *item_index },
        GameAction::Pass => GameAction::Pass,
        GameAction::VoteReady { ready } => GameAction::VoteReady { ready: *ready },
        GameAction::RaiseShields => GameAction::RaiseShields,
        GameAction::EvasiveManeuvers => GameAction::EvasiveManeuvers,
        GameAction::Lookout => GameAction::Lookout,
        GameAction::Interact => GameAction::Interact,
        GameAction::Revive { target_player } => GameAction::Revive {
            target_player: target_player.clone(),
        },
        GameAction::FirstAid { target_player } => GameAction::FirstAid {
            target_player: target_player.clone(),
        },
        GameAction::Chat { message } => GameAction::Chat { message: message.clone() },
        GameAction::Undo { action_id } => GameAction::Undo { action_id: *action_id },
    }
}

/// A crew member, as the solver sees one.
#[derive(Debug, Clone)]
pub struct Player {
    pub id: String,
    pub name: String,
    pub room_id: u32,
    pub hp: i32,
    pub ap: i32,
    pub is_ready: bool,
    pub inventory: Vec<ItemType>,
    pub status: Vec<PlayerStatus>,
}

/// A room of the ship.
#[derive(Debug, Clone)]
pub struct Room {
    pub id: u32,
    pub name: String,
    pub hazards: Vec<HazardType>,
    pub items: Vec<ItemType>,
}

/// An attack the boss has announced.
#[derive(Debug, Clone)]
pub struct Attack {
    pub target_room: u32,
    /// The attack's effect, by name.
    pub effect: String,
}

/// The current boss.
#[derive(Debug, Clone)]
pub struct Enemy {
    pub name: String,
    pub hp: i32,
    pub max_hp: i32,
    pub next_attack: Option<Attack>,
}

/// The card drawn in the last morning report.
#[derive(Debug, Clone)]
pub struct EventCard {
    pub title: String,
    pub description: String,
}

/// The parts of a game state that the solver reads. `players` are kept in ascending
/// order of id and `rooms` in ascending order of id, as the game's maps keep them.
#[derive(Debug, Clone)]
pub struct GameState {
    pub phase: GamePhase,
    pub turn_count: u32,
    pub hull_integrity: i32,
    pub boss_level: u32,
    pub enemy: Enemy,
    pub players: Vec<Player>,
    pub rooms: Vec<Room>,
    /// Titles of the situation cards in play.
    pub active_situations: Vec<String>,
    pub latest_event: Option<EventCard>,
}

/// Number of occurrences of `x` in `s`.
pub open spec fn count_of<T>(s: Seq<T>, x: T) -> nat
    decreases s.len(),
{
    if s.len() == 0 {
        0
    } else {
        count_of(s.drop_last(), x) + if s.last() == x {
            1nat
        } else {
            0nat
        }
    }
}

/// Number of hazard tokens of kind `h` over the rooms `rs`.
pub open spec fn hazards_of_kind(rs: Seq<Room>, h: HazardType) -> nat
    decreases rs.len(),
{
    if rs.len() == 0 {
        0
    } else {
        hazards_of_kind(rs.drop_last(), h) + count_of(rs.last().hazards@, h)
    }
}

/// Number of hazard tokens over the rooms `rs`.
pub open spec fn hazard_total(rs: Seq<Room>) -> nat
    decreases rs.len(),
{
    if rs.len() == 0 {
        0
    } else {
        hazard_total(rs.drop_last()) + rs.last().hazards@.len()
    }
}

impl GameState {
    /// Player ids strictly ascend (so they are distinct) and room ids strictly ascend.
    pub open spec fn well_formed(&self) -> bool {
        &&& forall|i: int, j: int|
            0 <= i < j < self.players@.len() ==> seq_lt(
                self.players@[i].id@,
                self.players@[j].id@,
            )
        &&& forall|i: int, j: int|
            0 <= i < j < self.rooms@.len() ==> self.rooms@[i].id < self.rooms@[j].id
    }

    /// Executable check of [`GameState::well_formed`].
    pub fn is_well_formed(&self) -> (b: bool)
        ensures
            b == self.well_formed(),
    {
        let np = self.players.len();
        let mut i: usize = 1;
        while i < np
            invariant
                1 <= i <= np || np == 0,
                np == self.players@.len(),
                forall|a: int, b: int|
                    0 <= a < b < i && b < np ==> seq_lt(
                        self.players@[a].id@,
                        self.players@[b].id@,
                    ),
            decreases np - i,
        {
            if !text_less(self.players[i - 1].id.as_str(), self.players[i].id.as_str()) {
                return false;
            }
            proof {
                assert forall|a: int, b: int| 0 <= a < b < i + 1 && b < np implies seq_lt(
                    self.players@[a].id@,
                    self.players@[b].id@,
                ) by {
                    if b == i && a < i - 1 {
                        lemma_seq_lt_trans(
                            self.players@[a].id@,
                            self.players@[i - 1].id@,
                            self.players@[b].id@,
                        );
                    }
                }
            }
            i += 1;
        }
        let nr = self.rooms.len();
        let mut j: usize = 1;
        while j < nr
            invariant
                1 <= j <= nr || nr == 0,
                nr == self.rooms@.len(),
                forall|a: int, b: int|
                    0 <= a < b < j && b < nr ==> self.rooms@[a].id < self.rooms@[b].id,
            decreases nr - j,
        {
            if self.rooms[j - 1].id >= self.rooms[j].id {
                return false;
            }
            j += 1;
        }
        true
    }
}

} // verus!
