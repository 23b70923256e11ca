//! Character-level text handling: whitespace, trimming, words, prefixes and
//! decimal numbers, each stated over the character sequence of the text.

use vstd::prelude::*;
use vstd::std_specs::iter::IteratorSpec;

verus! {

broadcast use vstd::string::group_string_axioms;

/// The characters of `s`, in order.
pub fn chars_of(s: &str) -> (v: Vec<char>)
    ensures
        v@ == s@,
{
    let mut it = s.chars();
    let mut v: Vec<char> = Vec::new();
    loop
        invariant
            v@ + it.remaining() == s@,
            it.obeys_prophetic_iter_laws(),
            it.decrease() is Some,
        decreases it.decrease()->0,
    {
        match it.next() {
            Some(c) => {
                v.push(c);
                assert(v@ + it.remaining() =~= s@);
            },
            None => {
                assert(it.remaining().len() == 0);
                assert(v@ =~= s@);
                return v;
            },
        }
    }
}

} // verus!

verus! {

/// Whether `c` is a Unicode `White_Space` character, the set that `char::is_whitespace`
/// and `str::trim` go by.
pub open spec fn is_ws(c: char) -> bool {
    let u = c as u32;
    (9 <= u && u <= 13) || u == 32 || u == 0x85 || u == 0xa0 || u == 0x1680 || (0x2000 <= u
        && u <= 0x200a) || u == 0x2028 || u == 0x2029 || u == 0x202f || u == 0x205f || u
        == 0x3000
}

/// Executable form of [`is_ws`].
pub fn is_whitespace(c: char) -> (b: bool)
    ensures
        b == is_ws(c),
{
    let u = c as u32;
    (9 <= u && u <= 13) || u == 32 || u == 0x85 || u == 0xa0 || u == 0x1680 || (0x2000 <= u
        && u <= 0x200a) || u == 0x2028 || u == 0x2029 || u == 0x202f || u == 0x205f || u
        == 0x3000
}

/// Number of whitespace characters at the start of `s`.
pub open spec fn lead_ws(s: Seq<char>) -> nat
    decreases s.len(),
{
    if s.len() > 0 && is_ws(s[0]) {
        1 + lead_ws(s.drop_first())
    } else {
        0
    }
}

/// Number of whitespace characters at the end of `s`.
pub open spec fn trail_ws(s: Seq<char>) -> nat
    decreases s.len(),
{
    if s.len() > 0 && is_ws(s.last()) {
        1 + trail_ws(s.drop_last())
    } else {
        0
    }
}

/// `s` without its leading and trailing whitespace.
pub open spec fn trim_spec(s: Seq<char>) -> Seq<char> {
    let r = s.skip(lead_ws(s) as int);
    r.take(r.len() - trail_ws(r))
}

/// `s` begins with `p`.
pub open spec fn starts_with(s: Seq<char>, p: Seq<char>) -> bool {
    p.len() <= s.len() && forall|i: int| 0 <= i < p.len() ==> s[i] == p[i]
}

/// The maximal runs of non-whitespace characters of `s` (the words that
/// `split_whitespace` yields), as half-open index ranges, in order.
pub open spec fn spans(s: Seq<char>) -> Seq<(int, int)>
    decreases s.len(),
{
    if s.len() == 0 {
        Seq::empty()
    } else {
        let p = spans(s.drop_last());
        let n = s.len() as int;
        if is_ws(s.last()) {
            p
        } else if n >= 2 && !is_ws(s[n - 2]) {
            p.update(p.len() - 1, (p.last().0, n))
        } else {
            p.push((n - 1, n))
        }
    }
}

/// The words of `s`, in order.
pub open spec fn words(s: Seq<char>) -> Seq<Seq<char>> {
    Seq::new(spans(s).len(), |k: int| s.subrange(spans(s)[k].0, spans(s)[k].1))
}

/// `s` with every non-overlapping occurrence of `p` removed, scanning from the left
/// (what `str::replace(p, "")` gives).
pub open spec fn remove_all(s: Seq<char>, p: Seq<char>) -> Seq<char>
    decreases s.len(),
{
    if s.len() == 0 || p.len() == 0 {
        s
    } else if starts_with(s, p) {
        remove_all(s.skip(p.len() as int), p)
    } else {
        seq![s[0]] + remove_all(s.drop_first(), p)
    }
}

/// `c` is an ASCII decimal digit.
pub open spec fn is_digit(c: char) -> bool {
    48 <= (c as u32) && (c as u32) <= 57
}

/// The value of a string of decimal digits.
pub open spec fn digits_value(s: Seq<char>) -> nat
    decreases s.len(),
{
    if s.len() == 0 {
        0
    } else {
        digits_value(s.drop_last()) * 10 + ((s.last() as u32) - 48) as nat
    }
}

/// `s` without one leading `+`, if it has one.
pub open spec fn strip_plus(s: Seq<char>) -> Seq<char> {
    if s.len() > 0 && s[0] == '+' {
        s.drop_first()
    } else {
        s
    }
}

/// The value of `d` if it is one or more ASCII digits whose value is at most `max`.
pub open spec fn parse_digits(d: Seq<char>, max: nat) -> Option<nat> {
    if d.len() > 0 && (forall|i: int| 0 <= i < d.len() ==> is_digit(d[i])) && digits_value(d)
        <= max {
        Some(digits_value(d))
    } else {
        None
    }
}

/// The unsigned decimal number that `s` spells, as `str::parse` reads one for an
/// unsigned type whose largest value is `max`: an optional `+`, then one or more
/// ASCII digits, with a value no larger than `max`.
pub open spec fn parse_uint(s: Seq<char>, max: nat) -> Option<nat> {
    parse_digits(strip_plus(s), max)
}

/// `c` equals the lower-case ASCII letter or other character `d`, ignoring ASCII case.
pub open spec fn ascii_ci_eq(c: char, d: char) -> bool {
    c == d || (65 <= (c as u32) && (c as u32) <= 90 && (c as u32) + 32 == (d as u32))
}

/// `s` contains `p` at some position, ignoring ASCII case in `s`.
pub open spec fn contains_ci(s: Seq<char>, p: Seq<char>) -> bool {
    exists|i: int|
        0 <= i && i + p.len() <= s.len() && #[trigger] matches_ci_at(s, p, i)
}

/// `s` holds `p` at position `i`, ignoring ASCII case in `s`.
pub open spec fn matches_ci_at(s: Seq<char>, p: Seq<char>, i: int) -> bool {
    forall|j: int| 0 <= j < p.len() ==> ascii_ci_eq(s[i + j], p[j])
}

proof fn lemma_lead(s: Seq<char>, i: int)
    requires
        0 <= i <= s.len(),
        forall|j: int| 0 <= j < i ==> is_ws(s[j]),
        i == s.len() || !is_ws(s[i]),
    ensures
        lead_ws(s) == i,
    decreases i,
{
    if i > 0 {
        lemma_lead(s.drop_first(), i - 1);
    }
}

proof fn lemma_trail(s: Seq<char>, k: int)
    requires
        0 <= k <= s.len(),
        forall|j: int| s.len() - k <= j < s.len() ==> is_ws(s[j]),
        k == s.len() || !is_ws(s[s.len() - k - 1]),
    ensures
        trail_ws(s) == k,
    decreases k,
{
    if k > 0 {
        lemma_trail(s.drop_last(), k - 1);
    }
}

/// The bounds of the trimmed part of the window `v[lo..hi]`.
pub fn trim_window(v: &Vec<char>, lo: usize, hi: usize) -> (r: (usize, usize))
    requires
        lo <= hi <= v.len(),
    ensures
        lo <= r.0 <= r.1 <= hi,
        v@.subrange(r.0 as int, r.1 as int) == trim_spec(v@.subrange(lo as int, hi as int)),
{
    let mut a = lo;
    while a < hi && is_whitespace(v[a])
        invariant
            lo <= a <= hi <= v.len(),
            forall|j: int| lo <= j < a ==> is_ws(v@[j]),
        decreases hi - a,
    {
        a += 1;
    }
    let mut b = hi;
    while b > a && is_whitespace(v[b - 1])
        invariant
            lo <= a <= b <= hi <= v.len(),
            forall|j: int| b <= j < hi ==> is_ws(v@[j]),
        decreases b - a,
    {
        b -= 1;
    }
    proof {
        let w = v@.subrange(lo as int, hi as int);
        lemma_lead(w, a - lo);
        let r = w.skip(a - lo);
        assert(r =~= v@.subrange(a as int, hi as int));
        lemma_trail(r, hi - b);
        assert(r.take(r.len() - (hi - b)) =~= v@.subrange(a as int, b as int));
    }
    (a, b)
}

proof fn lemma_spans_shape(s: Seq<char>)
    ensures
        forall|k: int|
            0 <= k < spans(s).len() ==> 0 <= #[trigger] spans(s)[k].0 < spans(s)[k].1 <= s.len(),
        forall|k: int|
            0 <= k < spans(s).len() - 1 ==> #[trigger] spans(s)[k].1 < spans(s)[k + 1].0,
        s.len() > 0 && !is_ws(s.last()) ==> spans(s).len() > 0 && spans(s).last().1 == s.len(),
        s.len() > 0 && is_ws(s.last()) ==> spans(s).len() == 0 || spans(s).last().1 < s.len(),
    decreases s.len(),
{
    if s.len() > 0 {
        let t = s.drop_last();
        lemma_spans_shape(t);
        let p = spans(t);
        let n = s.len() as int;
        let q = spans(s);
        if is_ws(s.last()) {
            assert(q == p);
        } else if n >= 2 && !is_ws(s[n - 2]) {
            assert(t.last() == s[n - 2]);
            assert(q == p.update(p.len() - 1, (p.last().0, n)));
            assert forall|k: int| 0 <= k < q.len() implies 0 <= #[trigger] q[k].0 < q[k].1
                <= s.len() by {
                if k < p.len() - 1 {
                    assert(q[k] == p[k]);
                }
            }
            assert forall|k: int| 0 <= k < q.len() - 1 implies #[trigger] q[k].1 < q[k + 1].0 by {
                assert(q[k] == p[k]);
                if k + 1 < p.len() - 1 {
                    assert(q[k + 1] == p[k + 1]);
                }
            }
        } else {
            if n >= 2 {
                assert(t.last() == s[n - 2]);
            }
            assert(q == p.push((n - 1, n)));
            assert forall|k: int| 0 <= k < q.len() implies 0 <= #[trigger] q[k].0 < q[k].1
                <= s.len() by {
                if k < p.len() {
                    assert(q[k] == p[k]);
                }
            }
            assert forall|k: int| 0 <= k < q.len() - 1 implies #[trigger] q[k].1 < q[k + 1].0 by {
                assert(q[k] == p[k]);
                if k + 1 < p.len() {
                    assert(q[k + 1] == p[k + 1]);
                }
            }
        }
    }
}

/// The word ranges of the window `v[lo..hi]`, as absolute indices into `v`.
pub fn word_spans(v: &Vec<char>, lo: usize, hi: usize) -> (r: Vec<(usize, usize)>)
    requires
        lo <= hi <= v.len(),
    ensures
        r@.len() == spans(v@.subrange(lo as int, hi as int)).len(),
        forall|k: int|
            #![trigger r@[k]]
            0 <= k < r@.len() ==> r@[k].0 == lo + spans(v@.subrange(lo as int, hi as int))[k].0
                && r@[k].1 == lo + spans(v@.subrange(lo as int, hi as int))[k].1,
        forall|k: int| #![trigger r@[k]] 0 <= k < r@.len() ==> lo <= r@[k].0 < r@[k].1 <= hi,
{
    let mut r: Vec<(usize, usize)> = Vec::new();
    let mut i = lo;
    while i < hi
        invariant
            lo <= i <= hi <= v.len(),
            r@.len() == spans(v@.subrange(lo as int, i as int)).len(),
            forall|k: int|
                #![trigger r@[k]]
                0 <= k < r@.len() ==> r@[k].0 == lo + spans(v@.subrange(lo as int, i as int))[k].0
                    && r@[k].1 == lo + spans(v@.subrange(lo as int, i as int))[k].1,
        decreases hi - i,
    {
        let ghost w0 = v@.subrange(lo as int, i as int);
        let ghost w1 = v@.subrange(lo as int, i + 1);
        let ghost r0 = r@;
        proof {
            assert(w1.drop_last() =~= w0);
            lemma_spans_shape(w0);
        }
        if is_whitespace(v[i]) {
        } else if i > lo && !is_whitespace(v[i - 1]) {
            proof {
                assert(w0.last() == v@[i - 1]);
            }
            let last = r.len() - 1;
            let start = r[last].0;
            r.set(last, (start, i + 1));
        } else {
            r.push((i, i + 1));
        }
        i += 1;
        proof {
            let p = spans(w0);
            let q = spans(w1);
            assert(w1.last() == v@[i - 1]);
            if is_ws(v@[i - 1]) {
                assert(q == p);
            } else if w1.len() >= 2 && !is_ws(w1[w1.len() - 2]) {
                assert(q == p.update(p.len() - 1, (p.last().0, w1.len() as int)));
            } else {
                assert(q == p.push((w1.len() - 1, w1.len() as int)));
            }
            assert forall|k: int| #![trigger r@[k]] 0 <= k < r@.len() implies r@[k].0 == lo
                + q[k].0 && r@[k].1 == lo + q[k].1 by {
                if k < r0.len() {
                    assert(r0[k].0 == lo + p[k].0);
                }
            }
        }
    }
    proof {
        let w = v@.subrange(lo as int, hi as int);
        lemma_spans_shape(w);
        assert forall|k: int| #![trigger r@[k]] 0 <= k < r@.len() implies lo <= r@[k].0
            < r@[k].1 <= hi by {
            assert(r@[k].0 == lo + spans(w)[k].0);
            assert(r@[k].1 == lo + spans(w)[k].1);
        }
    }
    r
}

} // verus!

verus! {

/// Whether the window `v[lo..hi]` begins with `p`.
pub fn window_starts_with(v: &Vec<char>, lo: usize, hi: usize, p: &Vec<char>) -> (b: bool)
    requires
        lo <= hi <= v.len(),
    ensures
        b == starts_with(v@.subrange(lo as int, hi as int), p@),
{
    if p.len() > hi - lo {
        return false;
    }
    let mut i: usize = 0;
    while i < p.len()
        invariant
            lo <= hi <= v.len(),
            p.len() <= hi - lo,
            0 <= i <= p.len(),
            forall|j: int| 0 <= j < i ==> v@[lo + j] == p@[j],
        decreases p.len() - i,
    {
        if v[lo + i] != p[i] {
            assert(v@.subrange(lo as int, hi as int)[i as int] != p@[i as int]);
            return false;
        }
        i += 1;
    }
    true
}

/// Whether the window `v[lo..hi]` is exactly `p`.
pub fn window_equals(v: &Vec<char>, lo: usize, hi: usize, p: &Vec<char>) -> (b: bool)
    requires
        lo <= hi <= v.len(),
    ensures
        b == (v@.subrange(lo as int, hi as int) == p@),
{
    if p.len() != hi - lo {
        return false;
    }
    let b = window_starts_with(v, lo, hi, p);
    if b {
        assert(v@.subrange(lo as int, hi as int) =~= p@);
    }
    b
}

proof fn lemma_digits_prefix(s: Seq<char>, k: int)
    requires
        0 <= k <= s.len(),
        forall|i: int| 0 <= i < s.len() ==> is_digit(s[i]),
    ensures
        digits_value(s.take(k)) <= digits_value(s),
    decreases s.len() - k,
{
    if k < s.len() {
        lemma_digits_prefix(s, k + 1);
        assert(s.take(k + 1).drop_last() =~= s.take(k));
    } else {
        assert(s.take(k) =~= s);
    }
}

/// The unsigned number that the window `v[lo..hi]` spells, if it spells one no larger
/// than `max` (see [`parse_uint`]).
pub fn parse_uint_window(v: &Vec<char>, lo: usize, hi: usize, max: u64) -> (r: Option<u64>)
    requires
        lo <= hi <= v.len(),
    ensures
        match parse_uint(v@.subrange(lo as int, hi as int), max as nat) {
            Some(n) => r == Some(n as u64),
            None => r is None,
        },
{
    let ghost w = v@.subrange(lo as int, hi as int);
    let mut start = lo;
    if start < hi && v[start] == '+' {
        start += 1;
    }
    let ghost d = v@.subrange(start as int, hi as int);
    proof {
        if lo < hi && v@[lo as int] == '+' {
            assert(d =~= w.drop_first());
        } else {
            assert(d =~= w);
        }
        assert(strip_plus(w) == d);
    }
    if start == hi {
        return None;
    }
    let mut acc: u64 = 0;
    let mut i = start;
    while i < hi
        invariant
            lo <= start < hi <= v.len(),
            start <= i <= hi,
            d == v@.subrange(start as int, hi as int),
            w == v@.subrange(lo as int, hi as int),
            strip_plus(w) == d,
            forall|j: int| start <= j < i ==> is_digit(v@[j]),
            acc as nat == digits_value(v@.subrange(start as int, i as int)),
            acc <= max,
        decreases hi - i,
    {
        let c = v[i];
        let cu = c as u32;
        if !(48 <= cu && cu <= 57) {
            assert(d[i - start] == c);
            assert(!is_digit(d[i - start]));
            return None;
        }
        let ghost pre = v@.subrange(start as int, i as int);
        let ghost nxt = v@.subrange(start as int, i + 1);
        proof {
            assert(nxt.drop_last() =~= pre);
        }
        let dig = (cu - 48) as u64;
        let next = match acc.checked_mul(10) {
            Some(m) => m.checked_add(dig),
            None => None,
        };
        match next {
            Some(n) if n <= max => {
                acc = n;
            },
            _ => {
                proof {
                    assert(digits_value(nxt) > max);
                    if forall|j: int| 0 <= j < d.len() ==> is_digit(d[j]) {
                        lemma_digits_prefix(d, i + 1 - start);
                        assert(d.take(i + 1 - start) =~= nxt);
                    }
                }
                return None;
            },
        }
        i += 1;
    }
    assert(v@.subrange(start as int, i as int) =~= d);
    Some(acc)
}

/// Whether the window `v[lo..hi]` contains the lower-case text `p`, ignoring
/// ASCII case in the window.
pub fn window_contains_ci(v: &Vec<char>, lo: usize, hi: usize, p: &Vec<char>) -> (b: bool)
    requires
        lo <= hi <= v.len(),
    ensures
        b == contains_ci(v@.subrange(lo as int, hi as int), p@),
{
    let ghost w = v@.subrange(lo as int, hi as int);
    if p.len() > hi - lo {
        return false;
    }
    let last = hi - lo - p.len();
    let mut i: usize = 0;
    while i <= last
        invariant
            lo <= hi <= v.len(),
            p.len() <= hi - lo,
            last == hi - lo - p.len(),
            w == v@.subrange(lo as int, hi as int),
            forall|k: int| 0 <= k < i ==> !#[trigger] matches_ci_at(w, p@, k),
        decreases last + 1 - i,
    {
        let mut j: usize = 0;
        let mut ok = true;
        while j < p.len()
            invariant
                lo <= hi <= v.len(),
                p.len() <= hi - lo,
                i <= last,
                last == hi - lo - p.len(),
                w == v@.subrange(lo as int, hi as int),
                0 <= j <= p.len(),
                ok ==> forall|t: int| 0 <= t < j ==> ascii_ci_eq(w[i + t], p@[t]),
                !ok ==> !matches_ci_at(w, p@, i as int),
            decreases p.len() - j,
        {
            let c = v[lo + i + j];
            let d = p[j];
            let cu = c as u32;
            let du = d as u32;
            assert(w[i + j] == c);
            if !(c == d || (65 <= cu && cu <= 90 && cu + 32 == du)) {
                ok = false;
            }
            j += 1;
        }
        if ok {
            assert(matches_ci_at(w, p@, i as int));
            return true;
        }
        i += 1;
    }
    false
}

/// `src` with every non-overlapping occurrence of `p` removed, scanning from the left.
pub fn remove_all_string(src: &str, p: &Vec<char>) -> (r: String)
    requires
        p.len() > 0,
    ensures
        r@ == remove_all(src@, p@),
{
    let v = chars_of(src);
    let n = v.len();
    let mut out = String::new();
    let mut seg: usize = 0;
    let mut i: usize = 0;
    proof {
        assert(v@.skip(0) =~= v@);
        assert(out@ + v@.subrange(0, 0) =~= Seq::<char>::empty());
        assert(Seq::<char>::empty() + remove_all(v@, p@) =~= remove_all(v@, p@));
    }
    while i < n
        invariant
            v@ == src@,
            n == v.len(),
            p.len() > 0,
            seg <= i <= n,
            remove_all(v@, p@) == out@ + v@.subrange(seg as int, i as int) + remove_all(
                v@.skip(i as int),
                p@,
            ),
        decreases n - i,
    {
        let ghost rest = v@.skip(i as int);
        if window_starts_with(&v, i, n, p) {
            let piece = src.substring_char(seg, i);
            out.append(piece);
            proof {
                assert(v@.subrange(i as int, n as int) =~= rest);
                assert(rest.skip(p.len() as int) =~= v@.skip(i + p.len()));
                assert(v@.subrange(i + p.len(), i + p.len()) =~= Seq::<char>::empty());
            }
            i = i + p.len();
            seg = i;
            proof {
                assert(out@ + v@.subrange(seg as int, i as int) =~= out@);
            }
        } else {
            proof {
                assert(v@.subrange(i as int, n as int) =~= rest);
                assert(rest.drop_first() =~= v@.skip(i + 1));
                assert(v@.subrange(seg as int, i as int) + seq![rest[0]] =~= v@.subrange(
                    seg as int,
                    i + 1,
                ));
            }
            i += 1;
        }
    }
    let piece = src.substring_char(seg, n);
    out.append(piece);
    proof {
        assert(v@.skip(n as int) =~= Seq::<char>::empty());
    }
    out
}

} // verus!

verus! {

/// The lines of `s`: the ranges between `\n` characters, the last one running to
/// the end of `s`.
pub open spec fn line_spans(s: Seq<char>) -> Seq<(int, int)>
    decreases s.len(),
{
    if s.len() == 0 {
        seq![(0int, 0int)]
    } else {
        let p = line_spans(s.drop_last());
        let n = s.len() as int;
        if s.last() == '\n' {
            p.push((n, n))
        } else {
            p.update(p.len() - 1, (p.last().0, n))
        }
    }
}

/// The lines of `s`, without their `\n` separators.
pub open spec fn lines_of(s: Seq<char>) -> Seq<Seq<char>> {
    Seq::new(line_spans(s).len(), |k: int| s.subrange(line_spans(s)[k].0, line_spans(s)[k].1))
}

proof fn lemma_line_spans_shape(s: Seq<char>)
    ensures
        line_spans(s).len() >= 1,
        line_spans(s).last().1 == s.len(),
        forall|k: int|
            #![trigger line_spans(s)[k]]
            0 <= k < line_spans(s).len() ==> 0 <= line_spans(s)[k].0 <= line_spans(s)[k].1
                <= s.len(),
    decreases s.len(),
{
    if s.len() > 0 {
        let t = s.drop_last();
        lemma_line_spans_shape(t);
        let p = line_spans(t);
        let q = line_spans(s);
        let n = s.len() as int;
        if s.last() == '\n' {
            assert(q == p.push((n, n)));
            assert forall|k: int| #![trigger q[k]] 0 <= k < q.len() implies 0 <= q[k].0 <= q[k].1
                <= s.len() by {
                if k < p.len() {
                    assert(q[k] == p[k]);
                }
            }
        } else {
            assert(q == p.update(p.len() - 1, (p.last().0, n)));
            assert forall|k: int| #![trigger q[k]] 0 <= k < q.len() implies 0 <= q[k].0 <= q[k].1
                <= s.len() by {
                if k < p.len() - 1 {
                    assert(q[k] == p[k]);
                }
            }
        }
    }
}

/// The line ranges of `v` (see [`line_spans`]).
pub fn line_ranges(v: &Vec<char>) -> (r: Vec<(usize, usize)>)
    ensures
        r@.len() == line_spans(v@).len(),
        forall|k: int|
            #![trigger r@[k]]
            0 <= k < r@.len() ==> r@[k].0 == line_spans(v@)[k].0 && r@[k].1 == line_spans(
                v@,
            )[k].1 && r@[k].0 <= r@[k].1 <= v.len(),
{
    let mut r: Vec<(usize, usize)> = Vec::new();
    r.push((0, 0));
    let n = v.len();
    let mut i: usize = 0;
    assert(v@.subrange(0, 0) =~= Seq::<char>::empty());
    while i < n
        invariant
            n == v.len(),
            0 <= i <= n,
            r@.len() == line_spans(v@.subrange(0, i as int)).len(),
            forall|k: int|
                #![trigger r@[k]]
                0 <= k < r@.len() ==> r@[k].0 == line_spans(v@.subrange(0, i as int))[k].0
                    && r@[k].1 == line_spans(v@.subrange(0, i as int))[k].1,
        decreases n - i,
    {
        let ghost w0 = v@.subrange(0, i as int);
        let ghost w1 = v@.subrange(0, i + 1);
        let ghost r0 = r@;
        proof {
            assert(w1.drop_last() =~= w0);
            assert(w1.last() == v@[i as int]);
            lemma_line_spans_shape(w0);
        }
        if v[i] == '\n' {
            r.push((i + 1, i + 1));
        } else {
            let last = r.len() - 1;
            let start = r[last].0;
            r.set(last, (start, i + 1));
        }
        i += 1;
        proof {
            let p = line_spans(w0);
            let q = line_spans(w1);
            if v@[i - 1] == '\n' {
                assert(q == p.push((w1.len() as int, w1.len() as int)));
            } else {
                assert(q == p.update(p.len() - 1, (p.last().0, w1.len() as int)));
            }
            assert forall|k: int| #![trigger r@[k]] 0 <= k < r@.len() implies r@[k].0 == q[k].0
                && r@[k].1 == q[k].1 by {
                if k < r0.len() {
                    assert(r0[k].0 == p[k].0);
                }
            }
        }
    }
    proof {
        assert(v@.subrange(0, n as int) =~= v@);
        lemma_line_spans_shape(v@);
    }
    r
}

} // verus!

verus! {

/// Trimming a trimmed text changes nothing.
pub proof fn lemma_trim_idempotent(s: Seq<char>)
    ensures
        trim_spec(trim_spec(s)) == trim_spec(s),
{
    let t = trim_spec(s);
    let a = lead_ws(s) as int;
    let r = s.skip(a);
    let b = trail_ws(r) as int;
    lemma_lead_bound(s);
    lemma_trail_bound(r);
    if t.len() == 0 {
        assert(trim_spec(t) =~= t);
    } else {
        lemma_lead_stop(s);
        lemma_trail_stop(r);
        assert(t[0] == r[0]);
        assert(t.last() == r[r.len() - b - 1]);
        lemma_lead(t, 0);
        lemma_trail(t, 0);
        assert(t.skip(0) =~= t);
        assert(t.take(t.len() as int) =~= t);
    }
}

proof fn lemma_lead_bound(s: Seq<char>)
    ensures
        lead_ws(s) <= s.len(),
    decreases s.len(),
{
    if s.len() > 0 && is_ws(s[0]) {
        lemma_lead_bound(s.drop_first());
    }
}

proof fn lemma_trail_bound(s: Seq<char>)
    ensures
        trail_ws(s) <= s.len(),
    decreases s.len(),
{
    if s.len() > 0 && is_ws(s.last()) {
        lemma_trail_bound(s.drop_last());
    }
}

proof fn lemma_lead_stop(s: Seq<char>)
    ensures
        lead_ws(s) < s.len() ==> !is_ws(s[lead_ws(s) as int]),
    decreases s.len(),
{
    if s.len() > 0 && is_ws(s[0]) {
        lemma_lead_stop(s.drop_first());
    }
}

proof fn lemma_trail_stop(s: Seq<char>)
    ensures
        trail_ws(s) < s.len() ==> !is_ws(s[s.len() - trail_ws(s) - 1]),
    decreases s.len(),
{
    if s.len() > 0 && is_ws(s.last()) {
        lemma_trail_stop(s.drop_last());
    }
}

} // verus!

verus! {

/// `a` comes strictly before `b` in lexicographic order of characters (the order of
/// `String`'s `Ord`, which compares the UTF-8 bytes).
pub open spec fn seq_lt(a: Seq<char>, b: Seq<char>) -> bool
    decreases a.len(),
{
    if a.len() == 0 {
        b.len() > 0
    } else if b.len() == 0 {
        false
    } else if a[0] != b[0] {
        (a[0] as u32) < (b[0] as u32)
    } else {
        seq_lt(a.drop_first(), b.drop_first())
    }
}

/// Lexicographic order is transitive.
pub proof fn lemma_seq_lt_trans(a: Seq<char>, b: Seq<char>, c: Seq<char>)
    requires
        seq_lt(a, b),
        seq_lt(b, c),
    ensures
        seq_lt(a, c),
    decreases a.len(),
{
    if a.len() > 0 && b.len() > 0 && c.len() > 0 && a[0] == b[0] && b[0] == c[0] {
        lemma_seq_lt_trans(a.drop_first(), b.drop_first(), c.drop_first());
    }
}

proof fn lemma_seq_lt_from(a: Seq<char>, b: Seq<char>, i: int)
    requires
        0 <= i <= a.len(),
        i <= b.len(),
        forall|j: int| 0 <= j < i ==> a[j] == b[j],
    ensures
        seq_lt(a, b) == seq_lt(a.skip(i), b.skip(i)),
    decreases i,
{
    if i > 0 {
        lemma_seq_lt_from(a.drop_first(), b.drop_first(), i - 1);
        assert(a.drop_first().skip(i - 1) =~= a.skip(i));
        assert(b.drop_first().skip(i - 1) =~= b.skip(i));
    } else {
        assert(a.skip(0) =~= a);
        assert(b.skip(0) =~= b);
    }
}

/// Whether `a` comes strictly before `b` (see [`seq_lt`]).
pub fn text_less(a: &str, b: &str) -> (r: bool)
    ensures
        r == seq_lt(a@, b@),
{
    let va = chars_of(a);
    let vb = chars_of(b);
    let mut i: usize = 0;
    while i < va.len() && i < vb.len() && va[i] == vb[i]
        invariant
            va@ == a@,
            vb@ == b@,
            i <= va.len(),
            i <= vb.len(),
            forall|j: int| 0 <= j < i ==> va@[j] == vb@[j],
        decreases va.len() - i,
    {
        i += 1;
    }
    proof {
        lemma_seq_lt_from(a@, b@, i as int);
    }
    if i == va.len() {
        i < vb.len()
    } else if i == vb.len() {
        false
    } else {
        (va[i] as u32) < (vb[i] as u32)
    }
}

/// Whether `a` and `b` are the same text.
pub fn text_equal(a: &str, b: &str) -> (r: bool)
    ensures
        r == (a@ == b@),
{
    let va = chars_of(a);
    let vb = chars_of(b);
    let r = window_equals(&va, 0, va.len(), &vb);
    assert(va@.subrange(0, va.len() as int) =~= va@);
    r
}

} // verus!
