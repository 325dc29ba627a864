//! Sorting the heap's planks by decreasing length, done once before any
//! row is selected. The specification-level sort pins the exact sequence
//! the selection algorithm then walks.

use vstd::prelude::*;
use crate::plank::Plank;
use crate::render::plank_lens;
use crate::sums::sum;
use crate::sums::lemma_sum_concat;

verus! {

/// Non-increasing order.
pub open spec fn is_sorted_desc(s: Seq<int>) -> bool {
    forall|i: int, j: int| 0 <= i < j < s.len() ==> s[i] >= s[j]
}

/// Inserts `x` into a sequence sorted in non-increasing order, after all
/// elements that are at least `x`.
pub open spec fn insert_desc(s: Seq<int>, x: int) -> Seq<int>
    decreases s.len(),
{
    if s.len() == 0 {
        seq![x]
    } else if s[0] >= x {
        seq![s[0]] + insert_desc(s.drop_first(), x)
    } else {
        seq![x] + s
    }
}

/// The sequence sorted in non-increasing order by repeated insertion.
pub open spec fn sort_desc(s: Seq<int>) -> Seq<int>
    decreases s.len(),
{
    if s.len() == 0 {
        Seq::empty()
    } else {
        insert_desc(sort_desc(s.drop_first()), s[0])
    }
}

/// Inserting splits the sequence at the first element below `x`.
proof fn lemma_insert_desc_at(s: Seq<int>, x: int, j: int)
    requires
        0 <= j <= s.len(),
        forall|k: int| 0 <= k < j ==> s[k] >= x,
        j == s.len() || s[j] < x,
    ensures
        insert_desc(s, x) == s.take(j) + seq![x] + s.skip(j),
    decreases j,
{
    if s.len() == 0 {
        assert(insert_desc(s, x) =~= s.take(0) + seq![x] + s.skip(0));
    } else if j == 0 {
        assert(insert_desc(s, x) =~= s.take(0) + seq![x] + s.skip(0));
    } else {
        lemma_insert_desc_at(s.drop_first(), x, j - 1);
        assert(s.drop_first().take(j - 1) =~= s.take(j).drop_first());
        assert(s.drop_first().skip(j - 1) =~= s.skip(j));
        assert(seq![s[0]] + (s.take(j).drop_first() + seq![x] + s.skip(j)) =~= s.take(j)
            + seq![x] + s.skip(j));
    }
}

/// Insertion preserves the sum.
proof fn lemma_insert_desc_sum(s: Seq<int>, x: int)
    ensures
        sum(insert_desc(s, x)) == sum(s) + x,
    decreases s.len(),
{
    if s.len() == 0 {
        crate::sums::lemma_sum_singleton(x);
        assert(insert_desc(s, x) == seq![x]);
    } else if s[0] >= x {
        lemma_insert_desc_sum(s.drop_first(), x);
        lemma_sum_concat(seq![s[0]], insert_desc(s.drop_first(), x));
        lemma_sum_concat(seq![s[0]], s.drop_first());
        assert(seq![s[0]] + s.drop_first() =~= s);
        crate::sums::lemma_sum_singleton(s[0]);
        assert(insert_desc(s, x) == seq![s[0]] + insert_desc(s.drop_first(), x));
    } else {
        lemma_sum_concat(seq![x], s);
        crate::sums::lemma_sum_singleton(x);
        assert(insert_desc(s, x) == seq![x] + s);
    }
}

/// Insertion keeps every element of the sequence, plus the new one.
proof fn lemma_insert_desc_range(s: Seq<int>, x: int, lo: int, hi: int)
    requires
        forall|i: int| 0 <= i < s.len() ==> lo <= #[trigger] s[i] <= hi,
        lo <= x <= hi,
    ensures
        forall|i: int| 0 <= i < insert_desc(s, x).len() ==> lo <= #[trigger] insert_desc(s, x)[i]
            <= hi,
    decreases s.len(),
{
    if s.len() == 0 {
    } else if s[0] >= x {
        assert(forall|i: int| 0 <= i < s.drop_first().len() ==> lo <= #[trigger] s.drop_first()[i]
            <= hi);
        lemma_insert_desc_range(s.drop_first(), x, lo, hi);
        let r = insert_desc(s, x);
        let t = insert_desc(s.drop_first(), x);
        assert(r == seq![s[0]] + t);
        assert forall|i: int| 0 <= i < r.len() implies lo <= #[trigger] r[i] <= hi by {
            if i == 0 {
                assert(r[0] == s[0]);
            } else {
                assert(r[i] == t[i - 1]);
            }
        }
    } else {
        let r = insert_desc(s, x);
        assert(r == seq![x] + s);
        assert forall|i: int| 0 <= i < r.len() implies lo <= #[trigger] r[i] <= hi by {
            if i == 0 {
                assert(r[0] == x);
            } else {
                assert(r[i] == s[i - 1]);
            }
        }
    }
}

/// Sorting preserves the sum.
pub proof fn lemma_sort_desc_sum(s: Seq<int>)
    ensures
        sum(sort_desc(s)) == sum(s),
    decreases s.len(),
{
    if s.len() == 0 {
    } else {
        lemma_sort_desc_sum(s.drop_first());
        lemma_insert_desc_sum(sort_desc(s.drop_first()), s[0]);
        lemma_sum_concat(seq![s[0]], s.drop_first());
        assert(seq![s[0]] + s.drop_first() =~= s);
        crate::sums::lemma_sum_singleton(s[0]);
        assert(sort_desc(s) == insert_desc(sort_desc(s.drop_first()), s[0]));
    }
}

/// Sorting keeps every element within the bounds of the input elements.
pub proof fn lemma_sort_desc_range(s: Seq<int>, lo: int, hi: int)
    requires
        forall|i: int| 0 <= i < s.len() ==> lo <= #[trigger] s[i] <= hi,
    ensures
        forall|i: int| 0 <= i < sort_desc(s).len() ==> lo <= #[trigger] sort_desc(s)[i] <= hi,
    decreases s.len(),
{
    if s.len() == 0 {
    } else {
        assert(forall|i: int| 0 <= i < s.drop_first().len() ==> lo <= #[trigger] s.drop_first()[i]
            <= hi);
        lemma_sort_desc_range(s.drop_first(), lo, hi);
        lemma_insert_desc_range(sort_desc(s.drop_first()), s[0], lo, hi);
    }
}

/// The sorted sequence has the input's length.
pub proof fn lemma_sort_desc_len(s: Seq<int>)
    ensures
        sort_desc(s).len() == s.len(),
    decreases s.len(),
{
    if s.len() > 0 {
        lemma_sort_desc_len(s.drop_first());
        lemma_insert_desc_len(sort_desc(s.drop_first()), s[0]);
    }
}

proof fn lemma_insert_desc_len(s: Seq<int>, x: int)
    ensures
        insert_desc(s, x).len() == s.len() + 1,
    decreases s.len(),
{
    if s.len() > 0 && s[0] >= x {
        lemma_insert_desc_len(s.drop_first(), x);
    }
}

/// Inserts a plank into a vector of planks sorted by decreasing length,
/// keeping the order.
fn insert_plank_desc(v: &mut Vec<Plank>, p: Plank)
    requires
        is_sorted_desc(plank_lens(old(v)@)),
    ensures
        plank_lens(final(v)@) == insert_desc(plank_lens(old(v)@), p.length as int),
        is_sorted_desc(plank_lens(final(v)@)),
{
    let ghost lens = plank_lens(v@);
    let x = p.length;
    let mut j: usize = 0;
    while j < v.len() && v[j].length >= x
        invariant
            lens == plank_lens(v@),
            lens.len() == v@.len(),
            j <= v@.len(),
            forall|k: int| 0 <= k < j ==> lens[k] >= x as int,
        decreases v.len() - j,
    {
        j = j + 1;
    }
    proof {
        lemma_insert_desc_at(lens, x as int, j as int);
    }
    v.insert(j, p);
    proof {
        assert(plank_lens(v@) =~= lens.take(j as int) + seq![x as int] + lens.skip(j as int));
        let r = plank_lens(v@);
        assert forall|a: int, b: int| 0 <= a < b < r.len() implies r[a] >= r[b] by {
            if a < j && b > j {
                assert(lens[a] >= x as int);
                assert(x as int > lens[b - 1]);
            } else if a == j && b > j {
                assert(x as int > lens[b - 1]);
            } else if a < j && b == j {
                assert(lens[a] >= x as int);
            }
        }
    }
}

/// The planks sorted by decreasing length; the resulting order is exactly
/// the specification-level sort of the lengths.
pub fn sort_planks_desc(planks: Vec<Plank>) -> (r: Vec<Plank>)
    ensures
        plank_lens(r@) == sort_desc(plank_lens(planks@)),
{
    let ghost lens = plank_lens(planks@);
    let mut r: Vec<Plank> = Vec::new();
    let mut i: usize = planks.len();
    proof {
        assert(lens.skip(planks@.len() as int) =~= Seq::<int>::empty());
        assert(plank_lens(r@) =~= Seq::<int>::empty());
    }
    while i > 0
        invariant
            lens == plank_lens(planks@),
            lens.len() == planks@.len(),
            i <= planks@.len(),
            plank_lens(r@) == sort_desc(lens.skip(i as int)),
            is_sorted_desc(plank_lens(r@)),
        decreases i,
    {
        i = i - 1;
        let p = planks[i];
        proof {
            assert(lens.skip(i as int).drop_first() =~= lens.skip(i as int + 1));
            assert(lens.skip(i as int)[0] == lens[i as int]);
        }
        insert_plank_desc(&mut r, p);
    }
    proof {
        assert(lens.skip(0) =~= lens);
    }
    r
}

} // verus!
