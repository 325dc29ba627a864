//! An unordered collection of planks with a cached total length. The
//! cache always equals the sum of the plank lengths: every `add` updates
//! both together.

use vstd::prelude::*;
use crate::plank::Plank;
use crate::render::plank_lens;
use crate::render::render_lens;
use crate::render::append_lens;
use crate::sums::sum;
use crate::sums::lemma_sum_nonneg;
use crate::sums::lemma_sum_concat;
use crate::sums::lemma_sum_repeat;

verus! {

/// A heap of planks. `total_length` is a derived cache of the sum of all
/// plank lengths.
#[derive(Debug, PartialEq, Clone)]
pub struct PlankHeap {
    pub planks: Vec<Plank>,
    pub total_length: usize,
}

impl PlankHeap {
    /// The lengths of the planks, in heap order.
    pub open spec fn lens(&self) -> Seq<int> {
        plank_lens(self.planks@)
    }

    /// Well-formed: the cache equals the sum of the lengths, and every
    /// plank is within the plank length bound.
    pub open spec fn wf(&self) -> bool {
        &&& self.total_length == sum(self.lens())
        &&& forall|i: int| 0 <= i < self.planks@.len() ==> (#[trigger] self.planks@[i]).valid()
    }

    /// The empty heap.
    pub fn new() -> (h: Self)
        ensures
            h.planks@ == Seq::<Plank>::empty(),
            h.total_length == 0,
            h.wf(),
    {
        PlankHeap { planks: Vec::new(), total_length: 0 }
    }

    /// A new heap with `count` additional planks of `length` appended;
    /// the cached total grows by `count * length`.
    pub fn add(self, count: usize, length: usize) -> (r: Self)
        requires
            self.wf(),
            length <= Plank::MAX_LENGTH,
            sum(self.lens()) + count * length <= usize::MAX,
        ensures
            r.wf(),
            r.planks@ == self.planks@ + Seq::new(count as nat, |i: int| Plank { length }),
            r.lens() == self.lens() + Seq::new(count as nat, |i: int| length as int),
            r.total_length == self.total_length + count * length,
    {
        proof {
            lemma_sum_nonneg(self.lens());
            assert(count * length >= 0) by (nonlinear_arith);
        }
        let added: usize = count * length;
        let mut planks = self.planks;
        let ghost base = planks@;
        let mut i: usize = 0;
        while i < count
            invariant
                i <= count,
                planks@ =~= base + Seq::new(i as nat, |k: int| Plank { length }),
            decreases count - i,
        {
            planks.push(Plank { length });
            proof {
                assert(planks@ =~= base + Seq::new((i + 1) as nat, |k: int| Plank { length }));
            }
            i = i + 1;
        }
        let r = PlankHeap { planks, total_length: self.total_length + added };
        proof {
            assert(r.lens() =~= plank_lens(base) + Seq::new(count as nat, |k: int| length as int));
            lemma_sum_concat(plank_lens(base), Seq::new(count as nat, |k: int| length as int));
            lemma_sum_repeat(length as int, count as nat);
        }
        r
    }

    /// The heap holding exactly the given planks, in order, with the
    /// total length computed as the sum of their lengths.
    pub fn from_planks(planks: Vec<Plank>) -> (h: Self)
        requires
            forall|i: int| 0 <= i < planks@.len() ==> (#[trigger] planks@[i]).valid(),
            sum(plank_lens(planks@)) <= usize::MAX,
        ensures
            h.planks@ =~= planks@,
            h.total_length == sum(plank_lens(planks@)),
            h.wf(),
    {
        let ghost lens = plank_lens(planks@);
        let mut heap = PlankHeap::new();
        let mut i: usize = 0;
        while i < planks.len()
            invariant
                i <= planks.len(),
                lens == plank_lens(planks@),
                forall|k: int| 0 <= k < planks@.len() ==> (#[trigger] planks@[k]).valid(),
                sum(lens) <= usize::MAX,
                heap.wf(),
                heap.planks@ =~= planks@.take(i as int),
            decreases planks.len() - i,
        {
            let p = planks[i];
            proof {
                assert(heap.lens() =~= lens.take(i as int));
                crate::sums::lemma_sum_take_succ(lens, i as int);
                crate::sums::lemma_sum_take_le(lens, i as int + 1);
                lemma_sum_nonneg(lens.take(i as int + 1));
                assert(1 * p.length == p.length) by (nonlinear_arith);
            }
            heap = heap.add(1, p.length);
            proof {
                assert(heap.planks@ =~= planks@.take(i as int + 1));
            }
            i = i + 1;
        }
        proof {
            assert(planks@.take(planks@.len() as int) =~= planks@);
            assert(heap.lens() =~= lens);
        }
        heap
    }

    /// The comma-joined plank lengths, in heap order.
    pub fn to_string(&self) -> (s: String)
        ensures
            s@ == render_lens(self.lens()),
    {
        let mut s = String::new();
        append_lens(&mut s, &self.planks);
        s
    }
}

/// Growing a heap by two batches of planks accumulates both the plank
/// count and the cached total length, independent of grouping: over the
/// length sequences that `add` produces, the sum after both batches is
/// the base sum plus each batch's `count * length` contribution.
pub proof fn lemma_add_cumulative(base: Seq<int>, c1: nat, l1: int, c2: nat, l2: int)
    ensures
        sum(base + Seq::new(c1, |i: int| l1) + Seq::new(c2, |i: int| l2)) == sum(base) + c1 * l1
            + c2 * l2,
        (base + Seq::new(c1, |i: int| l1) + Seq::new(c2, |i: int| l2)).len() == base.len() + c1
            + c2,
{
    lemma_sum_concat(base, Seq::new(c1, |i: int| l1));
    lemma_sum_concat(base + Seq::new(c1, |i: int| l1), Seq::new(c2, |i: int| l2));
    lemma_sum_repeat(l1, c1);
    lemma_sum_repeat(l2, c2);
}

impl Default for PlankHeap {
    /// The empty heap.
    fn default() -> (h: Self)
        ensures
            h.planks@ == Seq::<Plank>::empty(),
            h.total_length == 0,
            h.wf(),
    {
        PlankHeap::new()
    }
}

} // verus!
