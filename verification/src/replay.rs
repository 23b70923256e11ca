//! Text for replaying a trajectory round by round.

use vstd::prelude::*;
use crate::model::{hazard_total, GameState};

verus! {

broadcast use vstd::string::group_string_axioms;

/// The ASCII digit for `d` (below ten).
pub open spec fn digit_char(d: nat) -> char {
    ((48 + d) as u32) as char
}

/// The decimal digits of `n`, without leading zeros.
pub open spec fn nat_digits(n: nat) -> Seq<char>
    decreases n,
{
    if n < 10 {
        seq![digit_char(n)]
    } else {
        nat_digits(n / 10).push(digit_char(n % 10))
    }
}

/// `n` written in decimal, with a `-` in front if it is negative (as `{}` formats an integer).
pub open spec fn int_text(n: int) -> Seq<char> {
    if n < 0 {
        seq!['-'] + nat_digits((-n) as nat)
    } else {
        nat_digits(n as nat)
    }
}

fn digit_text(d: u64) -> (r: &'static str)
    requires
        d < 10,
    ensures
        r@ == seq![digit_char(d as nat)],
{
    proof {
        reveal_strlit("0");
        reveal_strlit("1");
        reveal_strlit("2");
        reveal_strlit("3");
        reveal_strlit("4");
        reveal_strlit("5");
        reveal_strlit("6");
        reveal_strlit("7");
        reveal_strlit("8");
        reveal_strlit("9");
    }
    match d {
        0 => "0",
        1 => "1",
        2 => "2",
        3 => "3",
        4 => "4",
        5 => "5",
        6 => "6",
        7 => "7",
        8 => "8",
        _ => "9",
    }
}

/// Appends the decimal digits of `n` to `out`.
pub fn append_nat(out: &mut String, n: u64)
    ensures
        final(out)@ == old(out)@ + nat_digits(n as nat),
    decreases n,
{
    if n >= 10 {
        append_nat(out, n / 10);
    }
    out.append(digit_text(n % 10));
    proof {
        if n >= 10 {
            assert(nat_digits(n as nat) == nat_digits((n / 10) as nat).push(digit_char((n % 10) as nat)));
        }
    }
}

/// Appends `n` in decimal to `out` (see [`int_text`]).
pub fn append_int(out: &mut String, n: i64)
    ensures
        final(out)@ == old(out)@ + int_text(n as int),
{
    if n < 0 {
        out.append("-");
        proof {
            reveal_strlit("-");
        }
        let m = (0i128 - (n as i128)) as u64;
        append_nat(out, m);
        assert(final(out)@ =~= old(out)@ + int_text(n as int));
    } else {
        append_nat(out, n as u64);
    }
}

/// What a finished round did to the hull and to the hazards.
pub open spec fn results_spec(old_hull: int, new_hull: int, old_hazards: int, new_hazards: int) -> Seq<char> {
    "[RESULTS]\n"@ + (if new_hull < old_hull {
        "  ! Hull Damage: "@ + int_text(old_hull) + " -> "@ + int_text(new_hull) + "\n"@
    } else {
        "  - Hull Stable ("@ + int_text(new_hull) + ")\n"@
    }) + (if new_hazards > old_hazards {
        "  ! Hazards Increased: "@ + int_text(old_hazards) + " -> "@ + int_text(new_hazards)
            + "\n"@
    } else if new_hazards < old_hazards {
        "  + Hazards Controlled: "@ + int_text(old_hazards) + " -> "@ + int_text(new_hazards)
            + "\n"@
    } else {
        Seq::empty()
    })
}

/// The `[RESULTS]` block closing a round: hull damage (or a stable hull), then whether
/// hazards increased or were brought down.
pub fn format_results(old_hull: i32, new_hull: i32, old_hazards: usize, new_hazards: usize) -> (r:
    String)
    ensures
        r@ == results_spec(old_hull as int, new_hull as int, old_hazards as int, new_hazards as int),
{
    let mut out = String::from_str("[RESULTS]\n");
    let ghost head = out@;
    if new_hull < old_hull {
        out.append("  ! Hull Damage: ");
        append_int(&mut out, old_hull as i64);
        out.append(" -> ");
        append_int(&mut out, new_hull as i64);
        out.append("\n");
    } else {
        out.append("  - Hull Stable (");
        append_int(&mut out, new_hull as i64);
        out.append(")\n");
    }
    let ghost mid = out@;
    if new_hazards > old_hazards {
        out.append("  ! Hazards Increased: ");
        append_nat(&mut out, old_hazards as u64);
        out.append(" -> ");
        append_nat(&mut out, new_hazards as u64);
        out.append("\n");
    } else if new_hazards < old_hazards {
        out.append("  + Hazards Controlled: ");
        append_nat(&mut out, old_hazards as u64);
        out.append(" -> ");
        append_nat(&mut out, new_hazards as u64);
        out.append("\n");
    }
    assert(out@ =~= results_spec(
        old_hull as int,
        new_hull as int,
        old_hazards as int,
        new_hazards as int,
    ));
    out
}

/// Number of hazard tokens on the whole map.
pub fn count_hazards(state: &GameState) -> (r: usize)
    requires
        hazard_total(state.rooms@) <= usize::MAX,
    ensures
        r == hazard_total(state.rooms@),
{
    let mut n: usize = 0;
    let mut i: usize = 0;
    while i < state.rooms.len()
        invariant
            0 <= i <= state.rooms@.len(),
            hazard_total(state.rooms@) <= usize::MAX,
            n == hazard_total(state.rooms@.take(i as int)),
        decreases state.rooms@.len() - i,
    {
        proof {
            assert(state.rooms@.take(i + 1).drop_last() =~= state.rooms@.take(i as int));
            lemma_hazard_total_prefix(state.rooms@, i + 1);
        }
        n = n + state.rooms[i].hazards.len();
        i += 1;
    }
    assert(state.rooms@.take(i as int) =~= state.rooms@);
    n
}

proof fn lemma_hazard_total_prefix(rs: Seq<crate::model::Room>, k: int)
    requires
        0 <= k <= rs.len(),
    ensures
        hazard_total(rs.take(k)) <= hazard_total(rs),
    decreases rs.len() - k,
{
    if k < rs.len() {
        lemma_hazard_total_prefix(rs, k + 1);
        assert(rs.take(k + 1).drop_last() =~= rs.take(k));
    } else {
        assert(rs.take(k) =~= rs);
    }
}

} // verus!

verus! {

/// Numbers written in decimal read back as themselves: the digits of `n` are one or
/// more ASCII digits whose value is `n`.
pub proof fn lemma_decimal_roundtrip(n: nat)
    ensures
        nat_digits(n).len() > 0,
        forall|i: int| 0 <= i < nat_digits(n).len() ==> crate::text::is_digit(#[trigger] nat_digits(n)[i]),
        crate::text::digits_value(nat_digits(n)) == n,
    decreases n,
{
    assert(digit_char(n % 10) as u32 == 48 + n % 10);
    if n < 10 {
        assert(digit_char(n) as u32 == 48 + n);
        let d = nat_digits(n);
        assert(d.drop_last() =~= Seq::<char>::empty());
        assert(d.last() == digit_char(n));
        assert(crate::text::digits_value(d.drop_last()) == 0);
        assert(crate::text::digits_value(d) == crate::text::digits_value(d.drop_last()) * 10 + ((d.last() as u32) - 48) as nat);
    }
    if n >= 10 {
        lemma_decimal_roundtrip(n / 10);
        let d = nat_digits(n);
        assert(d.drop_last() =~= nat_digits(n / 10));
        assert(d.last() == digit_char(n % 10));
        assert(n == (n / 10) * 10 + n % 10);
        assert(crate::text::digits_value(d) == crate::text::digits_value(nat_digits(n / 10)) * 10 + ((d.last() as u32) - 48) as nat);
        assert forall|i: int| 0 <= i < d.len() implies crate::text::is_digit(#[trigger] d[i]) by {
            if i < d.len() - 1 {
                assert(d[i] == nat_digits(n / 10)[i]);
            }
        }
    }
}

} // verus!
