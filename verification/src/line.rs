//! An ordered row of planks and its seam offsets. A junction is the
//! cumulative length offset at an internal boundary between two adjacent
//! planks; a line of `n` planks has exactly `n - 1` junctions (none for
//! `n <= 1`), in plank order.

use vstd::prelude::*;
use crate::plank::Plank;
use crate::render::plank_lens;
use crate::render::render_lens;
use crate::render::append_lens;
use crate::sums::sum;
use crate::sums::lemma_sum_nonneg;
use crate::sums::lemma_sum_take_succ;
use crate::sums::lemma_sum_take_le;

verus! {

/// A coordinate in the one-dimensional plan of a row where two plank
/// edges meet.
#[derive(Debug, PartialEq, Eq, Hash, Clone, Copy)]
pub struct Junction(pub usize);

/// The offsets of a sequence of junctions, as integers.
pub open spec fn junction_vals(js: Seq<Junction>) -> Seq<int> {
    js.map_values(|j: Junction| j.0 as int)
}

/// The junction offsets of a row with the given plank lengths: the
/// cumulative prefix sums after each plank except the last.
pub open spec fn junctions(s: Seq<int>) -> Seq<int> {
    if s.len() <= 1 {
        Seq::empty()
    } else {
        Seq::new((s.len() - 1) as nat, |i: int| sum(s.take(i + 1)))
    }
}

/// An ordered sequence of planks spanning one width-unit of the deck.
#[derive(Debug, PartialEq, Clone)]
pub struct Line(pub Vec<Plank>);

impl Line {
    /// The plank lengths, in line order.
    pub open spec fn lens(&self) -> Seq<int> {
        plank_lens(self.0@)
    }

    /// A new line with the plank appended at the end.
    pub fn with_plank(self, new_plank_to_add: Plank) -> (r: Self)
        ensures
            r.0@ == self.0@.push(new_plank_to_add),
            r.lens() == self.lens().push(new_plank_to_add.length as int),
    {
        let Line(old_planks) = self;
        let mut planks = old_planks;
        let ghost before = planks@;
        planks.push(new_plank_to_add);
        proof {
            assert(plank_lens(before.push(new_plank_to_add)) =~= plank_lens(before).push(
                new_plank_to_add.length as int,
            ));
        }
        Line(planks)
    }

    /// The ordered junction offsets of this line: one for each internal
    /// plank boundary, so `n - 1` of them for `n` planks and none for a
    /// line of zero or one planks.
    pub fn compute_junction(&self) -> (r: Vec<Junction>)
        requires
            sum(self.lens()) <= usize::MAX,
        ensures
            junction_vals(r@) == junctions(self.lens()),
            r@.len() == if self.0@.len() <= 1 {
                0int
            } else {
                self.0@.len() - 1
            },
            forall|i: int| 0 <= i < r@.len() ==> r@[i].0 == sum(self.lens().take(i + 1)),
    {
        let ghost lens = self.lens();
        let mut r: Vec<Junction> = Vec::new();
        if self.0.len() <= 1 {
            assert(junction_vals(r@) =~= junctions(lens));
            return r;
        }
        let mut acc: usize = 0;
        let mut i: usize = 0;
        while i < self.0.len() - 1
            invariant
                lens == self.lens(),
                lens.len() == self.0@.len(),
                self.0@.len() >= 2,
                sum(lens) <= usize::MAX,
                i <= self.0@.len() - 1,
                acc == sum(lens.take(i as int)),
                r@.len() == i,
                forall|k: int| 0 <= k < i ==> (#[trigger] r@[k]).0 == sum(lens.take(k + 1)),
            decreases self.0@.len() - i,
    {
            proof {
                lemma_sum_take_succ(lens, i as int);
                lemma_sum_take_le(lens, i as int + 1);
                lemma_sum_nonneg(lens.take(i as int + 1));
            }
            acc = acc + self.0[i].length;
            r.push(Junction(acc));
            i = i + 1;
        }
        proof {
            assert(junction_vals(r@) =~= junctions(lens));
        }
        r
    }

    /// The bracketed comma-joined plank lengths, in line order.
    pub fn to_string(&self) -> (s: String)
        ensures
            s@ == render_line(self.lens()),
    {
        let mut s = String::new();
        s.append("[");
        append_lens(&mut s, &self.0);
        s.append("]");
        s
    }
}

/// The textual form of a line with the given plank lengths.
pub open spec fn render_line(s: Seq<int>) -> Seq<char> {
    "["@ + render_lens(s) + "]"@
}

impl Default for Line {
    /// The empty line.
    fn default() -> (r: Self)
        ensures
            r.0@ == Seq::<Plank>::empty(),
    {
        Line(Vec::new())
    }
}

} // verus!
