//! A verified core for the Sinterklaas FTL solver: the decisions, parsers and
//! bookkeeping that drive the searches, stated over a plain model of the game.

pub mod model;
pub mod text;
pub mod random;

pub mod verification;
pub mod driver;
pub mod checker;
pub mod report;

pub mod heuristic;
pub mod macro_actions;
pub mod combinatorics;
pub mod beam_search;
pub mod search;
pub mod beam_step;
pub mod evolution;
pub mod tuning;
pub mod config;

pub mod replay;
pub mod trajectory;
pub mod tui;
pub mod relay;
