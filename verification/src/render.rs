//! Deterministic textual forms: decimal rendering of lengths and the
//! comma-joined forms used by heaps, lines, layouts and step diagnostics.

use vstd::prelude::*;
use crate::plank::Plank;

verus! {

/// The one-character sequence for a decimal digit.
pub open spec fn digit_lit(d: nat) -> Seq<char> {
    if d == 0 {
        "0"@
    } else if d == 1 {
        "1"@
    } else if d == 2 {
        "2"@
    } else if d == 3 {
        "3"@
    } else if d == 4 {
        "4"@
    } else if d == 5 {
        "5"@
    } else if d == 6 {
        "6"@
    } else if d == 7 {
        "7"@
    } else if d == 8 {
        "8"@
    } else {
        "9"@
    }
}

/// The decimal rendering of a natural number, most significant digit first.
pub open spec fn dec_str(n: nat) -> Seq<char>
    decreases n,
{
    if n < 10 {
        digit_lit(n)
    } else {
        dec_str(n / 10) + digit_lit(n % 10)
    }
}

/// Appends the decimal rendering of `n` to `s`.
pub fn append_dec(s: &mut String, n: usize)
    ensures
        final(s)@ == old(s)@ + dec_str(n as nat),
    decreases n,
{
    if n >= 10 {
        append_dec(s, n / 10);
        append_digit(s, n % 10);
    } else {
        append_digit(s, n);
    }
}

/// Appends the single decimal digit `d` (`d < 10`) to `s`.
fn append_digit(s: &mut String, d: usize)
    requires
        d < 10,
    ensures
        final(s)@ == old(s)@ + digit_lit(d as nat),
{
    if d == 0 {
        s.append("0");
    } else if d == 1 {
        s.append("1");
    } else if d == 2 {
        s.append("2");
    } else if d == 3 {
        s.append("3");
    } else if d == 4 {
        s.append("4");
    } else if d == 5 {
        s.append("5");
    } else if d == 6 {
        s.append("6");
    } else if d == 7 {
        s.append("7");
    } else if d == 8 {
        s.append("8");
    } else {
        s.append("9");
    }
}

/// The comma-joined rendering of a sequence of lengths, `"8, 5, 13"` style.
/// Lengths come from `usize` values, so each element is non-negative.
pub open spec fn render_lens(s: Seq<int>) -> Seq<char>
    decreases s.len(),
{
    if s.len() == 0 {
        Seq::empty()
    } else if s.len() == 1 {
        dec_str(s[0] as nat)
    } else {
        render_lens(s.drop_last()) + ", "@ + dec_str(s.last() as nat)
    }
}

/// The lengths of a sequence of planks.
pub open spec fn plank_lens(planks: Seq<Plank>) -> Seq<int> {
    planks.map_values(|p: Plank| p.length as int)
}

/// Appends the comma-joined lengths of `planks` to `s`.
pub fn append_lens(s: &mut String, planks: &Vec<Plank>)
    ensures
        final(s)@ == old(s)@ + render_lens(plank_lens(planks@)),
{
    let ghost lens = plank_lens(planks@);
    let mut i: usize = 0;
    while i < planks.len()
        invariant
            i <= planks.len(),
            lens == plank_lens(planks@),
            lens.len() == planks@.len(),
            s@ == old(s)@ + render_lens(lens.take(i as int)),
        decreases planks.len() - i,
    {
        if i > 0 {
            s.append(", ");
        }
        append_dec(s, planks[i].length);
        proof {
            lemma_render_lens_take_succ(lens, i as int);
        }
        i = i + 1;
    }
    proof {
        assert(lens.take(planks@.len() as int) =~= lens);
    }
}

/// Extending a prefix of lengths by one element extends its rendering by
/// a separator (past the first element) and the new length.
proof fn lemma_render_lens_take_succ(s: Seq<int>, i: int)
    requires
        0 <= i < s.len(),
    ensures
        render_lens(s.take(i + 1)) == if i == 0 {
            dec_str(s[0] as nat)
        } else {
            render_lens(s.take(i)) + ", "@ + dec_str(s[i] as nat)
        },
{
    let t = s.take(i + 1);
    if i == 0 {
        assert(t.len() == 1);
        assert(t[0] == s[0]);
    } else {
        assert(t.drop_last() =~= s.take(i));
        assert(t.last() == s[i]);
    }
}

} // verus!
