//! Display helpers of the terminal interface.

use vstd::prelude::*;
use crate::text::text_equal;

verus! {

broadcast use vstd::string::group_string_axioms;

/// The emoji shown for player `id`.
pub open spec fn player_emoji_spec(id: Seq<char>) -> Seq<char> {
    if id == "P1"@ {
        "👺"@
    } else if id == "P2"@ {
        "🤖"@
    } else if id == "P3"@ {
        "🐸"@
    } else if id == "P4"@ {
        "😺"@
    } else if id == "P5"@ {
        "😈"@
    } else if id == "P6"@ {
        "👻"@
    } else {
        "👤"@
    }
}

/// The emoji shown for player `id`: one of its own for each of `P1` to `P6`, a
/// generic figure for anyone else.
pub fn get_player_emoji(id: &str) -> (r: &'static str)
    ensures
        r@ == player_emoji_spec(id@),
{
    if text_equal(id, "P1") {
        "👺"
    } else if text_equal(id, "P2") {
        "🤖"
    } else if text_equal(id, "P3") {
        "🐸"
    } else if text_equal(id, "P4") {
        "😺"
    } else if text_equal(id, "P5") {
        "😈"
    } else if text_equal(id, "P6") {
        "👻"
    } else {
        "👤"
    }
}

/// The colour a player is drawn in.
#[derive(Debug, Clone, Copy, PartialEq, Eq, Structural)]
pub enum PlayerColor {
    Red,
    Blue,
    Green,
    Yellow,
    Magenta,
    Cyan,
    White,
}

/// The colour of player `id`: one of its own for each of `P1` to `P6`, white for
/// anyone else.
pub open spec fn player_color_spec(id: Seq<char>) -> PlayerColor {
    if id == "P1"@ {
        PlayerColor::Red
    } else if id == "P2"@ {
        PlayerColor::Blue
    } else if id == "P3"@ {
        PlayerColor::Green
    } else if id == "P4"@ {
        PlayerColor::Yellow
    } else if id == "P5"@ {
        PlayerColor::Magenta
    } else if id == "P6"@ {
        PlayerColor::Cyan
    } else {
        PlayerColor::White
    }
}

/// The colour of player `id` (see [`player_color_spec`]).
pub fn player_color(id: &str) -> (r: PlayerColor)
    ensures
        r == player_color_spec(id@),
{
    if text_equal(id, "P1") {
        PlayerColor::Red
    } else if text_equal(id, "P2") {
        PlayerColor::Blue
    } else if text_equal(id, "P3") {
        PlayerColor::Green
    } else if text_equal(id, "P4") {
        PlayerColor::Yellow
    } else if text_equal(id, "P5") {
        PlayerColor::Magenta
    } else if text_equal(id, "P6") {
        PlayerColor::Cyan
    } else {
        PlayerColor::White
    }
}

/// `parts` joined with `sep` between consecutive parts.
pub open spec fn join_spec(parts: Seq<Seq<char>>, sep: Seq<char>) -> Seq<char>
    decreases parts.len(),
{
    if parts.len() == 0 {
        Seq::empty()
    } else if parts.len() == 1 {
        parts[0]
    } else {
        join_spec(parts.drop_last(), sep) + sep + parts.last()
    }
}

/// The text values of a list of strings.
pub open spec fn texts(v: Seq<String>) -> Seq<Seq<char>>
    decreases v.len(),
{
    if v.len() == 0 {
        Seq::empty()
    } else {
        texts(v.drop_last()).push(v.last()@)
    }
}

proof fn lemma_texts(v: Seq<String>, i: int)
    requires
        0 <= i <= v.len(),
    ensures
        texts(v.take(i)).len() == i,
        i > 0 ==> texts(v.take(i)).drop_last() == texts(v.take(i - 1)),
        i > 0 ==> texts(v.take(i)).last() == v[i - 1]@,
{
    if i > 0 {
        assert(v.take(i).drop_last() =~= v.take(i - 1));
        lemma_texts_len(v.take(i - 1));
    }
}

pub(crate) proof fn lemma_texts_len(v: Seq<String>)
    ensures
        texts(v).len() == v.len(),
    decreases v.len(),
{
    if v.len() > 0 {
        lemma_texts_len(v.drop_last());
    }
}

/// The strings of `parts` joined with `sep`.
pub fn join_strings(parts: &[String], sep: &str) -> (r: String)
    ensures
        r@ == join_spec(texts(parts@), sep@),
{
    let mut out = String::new();
    let mut i: usize = 0;
    proof {
        lemma_texts(parts@, 0);
    }
    while i < parts.len()
        invariant
            0 <= i <= parts@.len(),
            out@ == join_spec(texts(parts@.take(i as int)), sep@),
        decreases parts@.len() - i,
    {
        if i > 0 {
            out.append(sep);
        }
        out.append(parts[i].as_str());
        i += 1;
        proof {
            lemma_texts(parts@, i as int);
            if i > 1 {
                lemma_texts(parts@, i - 1);
            } else {
                assert(texts(parts@.take(1)).drop_last().len() == 0);
            }
        }
    }
    proof {
        assert(parts@.take(i as int) =~= parts@);
    }
    out
}

/// A ticker showing the last few actions of a simulation.
pub struct ActionTicker<'a> {
    pub history: &'a [String],
    pub label: &'a str,
}

impl<'a> ActionTicker<'a> {
    /// The ticker's text: one action per line.
    pub fn ticker_text(&self) -> (r: String)
        ensures
            r@ == join_spec(texts(self.history@), "\n"@),
    {
        join_strings(self.history, "\n")
    }

    /// The ticker's title: `Action Ticker ` followed by the label.
    pub fn title(&self) -> (r: String)
        ensures
            r@ == "Action Ticker "@ + self.label@,
    {
        let mut s = String::from_str("Action Ticker ");
        s.append(self.label);
        s
    }
}

} // verus!
