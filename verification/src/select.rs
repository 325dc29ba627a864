//! The row selector and the layout builder. The selector walks the
//! heap's planks in order with a greedy accept/reject/stash pass, retries
//! a stashed plank once, and checks the row's length goal. The builder
//! sorts the heap once, then drives the selector once per row, feeding
//! each row's leftover planks to the next.

use vstd::prelude::*;
use crate::plank::Deck;
use crate::plank::Plank;
use crate::heap::PlankHeap;
use crate::line::Junction;
use crate::line::Line;
use crate::line::junctions;
use crate::line::junction_vals;
use crate::layout::Calepinage;
use crate::step::CalepineStep;
use crate::step::CalepinageError;
use crate::step::StepModel;
use crate::step::render_step;
use crate::sums::sum;
use crate::sums::lemma_sum_nonneg;
use crate::sums::lemma_sum_push;
use crate::sums::lemma_sum_take_succ;
use crate::sums::lemma_sum_take_le;
use crate::sort::sort_desc;
use crate::sort::sort_planks_desc;
use crate::sort::lemma_sort_desc_sum;
use crate::sort::lemma_sort_desc_range;

verus! {

pub type CalepineResult = Result<Calepinage, CalepinageError>;

/// One placement decision for a plank of length `len`: rejected into
/// `remaining` when it would overshoot the goal, stashed (overwriting any
/// earlier stash) when it would reproduce a junction of the previous
/// line, accepted into `selected` otherwise.
pub open spec fn place(step: StepModel, len: int, goal: int, prev: Seq<int>) -> StepModel {
    let new_length = sum(step.selected) + len;
    if new_length > goal {
        StepModel { remaining: step.remaining.push(len), selected: step.selected, stash: step.stash }
    } else if prev.contains(new_length) {
        StepModel { remaining: step.remaining, selected: step.selected, stash: Some(len) }
    } else {
        StepModel { remaining: step.remaining, selected: step.selected.push(len), stash: step.stash }
    }
}

/// The single greedy pass over the planks, in heap order.
pub open spec fn scan_planks(planks: Seq<int>, goal: int, prev: Seq<int>) -> StepModel
    decreases planks.len(),
{
    if planks.len() == 0 {
        StepModel::empty()
    } else {
        place(scan_planks(planks.drop_last(), goal, prev), planks.last(), goal, prev)
    }
}

/// The second chance for a stashed plank: it is placed once more against
/// the updated step, with the same decision rule.
pub open spec fn retry_stash(step: StepModel, goal: int, prev: Seq<int>) -> StepModel {
    match step.stash {
        Some(l) => place(
            StepModel { remaining: step.remaining, selected: step.selected, stash: None },
            l,
            goal,
            prev,
        ),
        None => step,
    }
}

/// The full selection for one row: the greedy pass, then the stash retry.
pub open spec fn select_spec(planks: Seq<int>, goal: int, prev: Seq<int>) -> StepModel {
    retry_stash(scan_planks(planks, goal, prev), goal, prev)
}

/// A placement keeps all lengths in range and grows the step's combined
/// length by at most the placed length.
proof fn lemma_place_bounds(step: StepModel, len: int, goal: int, prev: Seq<int>, bound: int)
    requires
        step.in_range(bound),
        0 <= len <= bound,
    ensures
        place(step, len, goal, prev).in_range(bound),
        place(step, len, goal, prev).total() <= step.total() + len,
{
    let r = place(step, len, goal, prev);
    let new_length = sum(step.selected) + len;
    if new_length > goal {
        lemma_sum_push(step.remaining, len);
        assert(forall|i: int| 0 <= i < r.remaining.len() ==> 0 <= #[trigger] r.remaining[i]
            <= bound) by {
            assert(forall|i: int| 0 <= i < step.remaining.len() ==> 0
                <= #[trigger] step.remaining[i] <= bound);
        }
    } else if prev.contains(new_length) {
    } else {
        lemma_sum_push(step.selected, len);
        assert(forall|i: int| 0 <= i < r.selected.len() ==> 0 <= #[trigger] r.selected[i]
            <= bound) by {
            assert(forall|i: int| 0 <= i < step.selected.len() ==> 0
                <= #[trigger] step.selected[i] <= bound);
        }
    }
}

/// The greedy pass keeps all lengths in range and holds, over all three
/// parts together, at most the total length of the planks walked.
proof fn lemma_scan_bounds(planks: Seq<int>, goal: int, prev: Seq<int>, bound: int)
    requires
        bound >= 0,
        forall|i: int| 0 <= i < planks.len() ==> 0 <= #[trigger] planks[i] <= bound,
    ensures
        scan_planks(planks, goal, prev).in_range(bound),
        scan_planks(planks, goal, prev).total() <= sum(planks),
    decreases planks.len(),
{
    if planks.len() == 0 {
    } else {
        assert(forall|i: int| 0 <= i < planks.drop_last().len() ==> 0
            <= #[trigger] planks.drop_last()[i] <= bound);
        lemma_scan_bounds(planks.drop_last(), goal, prev, bound);
        lemma_place_bounds(scan_planks(planks.drop_last(), goal, prev), planks.last(), goal, prev, bound);
    }
}

/// The whole selection keeps all lengths in range and holds at most the
/// total length of the input planks.
proof fn lemma_select_bounds(planks: Seq<int>, goal: int, prev: Seq<int>, bound: int)
    requires
        bound >= 0,
        forall|i: int| 0 <= i < planks.len() ==> 0 <= #[trigger] planks[i] <= bound,
    ensures
        select_spec(planks, goal, prev).in_range(bound),
        select_spec(planks, goal, prev).total() <= sum(planks),
{
    lemma_scan_bounds(planks, goal, prev, bound);
    let s = scan_planks(planks, goal, prev);
    match s.stash {
        Some(l) => {
            let cleared = StepModel { remaining: s.remaining, selected: s.selected, stash: None };
            lemma_place_bounds(cleared, l, goal, prev, bound);
        },
        None => {},
    }
}

/// Every non-empty prefix of the selected planks sums to an offset that
/// the previous line's junctions do not contain.
pub open spec fn prefixes_avoid(sel: Seq<int>, prev: Seq<int>) -> bool {
    forall|j: int| 1 <= j <= sel.len() ==> !prev.contains(sum(#[trigger] sel.take(j)))
}

/// A placement preserves prefix avoidance: a plank is only accepted when
/// the offset it would create is not a junction of the previous line.
proof fn lemma_place_avoid(step: StepModel, len: int, goal: int, prev: Seq<int>)
    requires
        prefixes_avoid(step.selected, prev),
    ensures
        prefixes_avoid(place(step, len, goal, prev).selected, prev),
{
    let new_length = sum(step.selected) + len;
    if new_length <= goal && !prev.contains(new_length) {
        let ns = step.selected.push(len);
        assert forall|j: int| 1 <= j <= ns.len() implies !prev.contains(sum(#[trigger] ns.take(j))) by {
            if j <= step.selected.len() {
                assert(ns.take(j) =~= step.selected.take(j));
            } else {
                assert(ns.take(j) =~= ns);
                lemma_sum_push(step.selected, len);
            }
        }
    }
}

proof fn lemma_scan_avoid(planks: Seq<int>, goal: int, prev: Seq<int>)
    ensures
        prefixes_avoid(scan_planks(planks, goal, prev).selected, prev),
    decreases planks.len(),
{
    if planks.len() > 0 {
        lemma_scan_avoid(planks.drop_last(), goal, prev);
        lemma_place_avoid(scan_planks(planks.drop_last(), goal, prev), planks.last(), goal, prev);
    }
}

proof fn lemma_select_avoid(planks: Seq<int>, goal: int, prev: Seq<int>)
    ensures
        prefixes_avoid(select_spec(planks, goal, prev).selected, prev),
{
    lemma_scan_avoid(planks, goal, prev);
    let s = scan_planks(planks, goal, prev);
    match s.stash {
        Some(l) => {
            let cleared = StepModel { remaining: s.remaining, selected: s.selected, stash: None };
            lemma_place_avoid(cleared, l, goal, prev);
        },
        None => {},
    }
}

/// A line whose prefixes avoid the previous junction offsets shares no
/// junction with them.
proof fn lemma_avoid_junctions(sel: Seq<int>, prev: Seq<int>)
    requires
        prefixes_avoid(sel, prev),
    ensures
        forall|x: int| junctions(sel).contains(x) ==> !prev.contains(x),
{
    assert forall|x: int| junctions(sel).contains(x) implies !prev.contains(x) by {
        let i = choose|i: int|
            0 <= i < junctions(sel).len() && junctions(sel)[i] == x;
        assert(junctions(sel)[i] == sum(sel.take(i + 1)));
        assert(1 <= i + 1 <= sel.len());
    }
}

/// Whether a junction at `value` already exists among the previous
/// line's junctions.
fn contains_junction(junctions_vec: &Vec<Junction>, value: usize) -> (r: bool)
    ensures
        r == junction_vals(junctions_vec@).contains(value as int),
{
    let ghost vals = junction_vals(junctions_vec@);
    let mut i: usize = 0;
    while i < junctions_vec.len()
        invariant
            i <= junctions_vec@.len(),
            vals == junction_vals(junctions_vec@),
            vals.len() == junctions_vec@.len(),
            forall|k: int| 0 <= k < i ==> (#[trigger] vals[k]) != value as int,
        decreases junctions_vec.len() - i,
    {
        if junctions_vec[i].0 == value {
            assert(vals[i as int] == value as int);
            return true;
        }
        i = i + 1;
    }
    false
}

/// One exec placement decision, mirroring `place` over the step's model.
fn place_plank(step: CalepineStep, plank: Plank, deck_length: usize, previous_line_junctions: &Vec<Junction>) -> (r: CalepineStep)
    requires
        step.wf(),
        plank.valid(),
        step.model().total() + plank.length <= usize::MAX,
    ensures
        r.wf(),
        r.model() == place(
            step.model(),
            plank.length as int,
            deck_length as int,
            junction_vals(previous_line_junctions@),
        ),
{
    let ghost m = step.model();
    proof {
        assert(forall|i: int| 0 <= i < m.remaining.len() ==> #[trigger] m.remaining[i] >= 0);
        assert(forall|i: int| 0 <= i < m.selected.len() ==> #[trigger] m.selected[i] >= 0);
        lemma_sum_nonneg(m.remaining);
        lemma_sum_nonneg(m.selected);
        assert(m.stash_len() >= 0);
    }
    let new_length = step.selected.total_length + plank.length;
    if new_length > deck_length {
        let r = CalepineStep {
            remaining: step.remaining.add(1, plank.length),
            selected: step.selected,
            stash: step.stash,
        };
        proof {
            assert(r.model().remaining =~= m.remaining.push(plank.length as int));
        }
        r
    } else if contains_junction(previous_line_junctions, new_length) {
        CalepineStep { remaining: step.remaining, selected: step.selected, stash: Some(plank) }
    } else {
        let r = CalepineStep {
            remaining: step.remaining,
            selected: step.selected.add(1, plank.length),
            stash: step.stash,
        };
        proof {
            assert(r.model().selected =~= m.selected.push(plank.length as int));
        }
        r
    }
}

/// Selects the planks of one row out of the heap: a greedy pass in heap
/// order, one retry of the stashed plank, then the length-goal check.
/// The resulting step is exactly the specification-level selection; on
/// failure the declared error says whether any plank remained at all.
pub fn select_planks_for_line(
    the_plank_heap: &PlankHeap,
    deck_length: usize,
    previous_line_junctions: &Vec<Junction>,
) -> (result: Result<CalepineStep, CalepinageError>)
    requires
        the_plank_heap.wf(),
    ensures
        ({
            let m = select_spec(
                the_plank_heap.lens(),
                deck_length as int,
                junction_vals(previous_line_junctions@),
            );
            match result {
                Ok(step) => step.wf() && step.model() == m && sum(m.selected) >= deck_length,
                Err(CalepinageError::NotEnoughPlanks) => sum(m.selected) < deck_length && sum(
                    m.remaining,
                ) == 0,
                Err(CalepinageError::OnlyUnusablePlanksRemaining(s)) => sum(m.selected)
                    < deck_length && sum(m.remaining) != 0 && s@ == render_step(m),
            }
        }),
{
    let ghost prev = junction_vals(previous_line_junctions@);
    let ghost lens = the_plank_heap.lens();
    let ghost goal = deck_length as int;
    proof {
        assert(forall|i: int| 0 <= i < lens.len() ==> 0 <= #[trigger] lens[i]
            <= Plank::MAX_LENGTH as int);
        lemma_sum_nonneg(lens);
    }
    let mut step = CalepineStep::default();
    proof {
        assert(lens.take(0) =~= Seq::<int>::empty());
    }
    let mut i: usize = 0;
    while i < the_plank_heap.planks.len()
        invariant
            the_plank_heap.wf(),
            prev == junction_vals(previous_line_junctions@),
            lens == the_plank_heap.lens(),
            goal == deck_length as int,
            lens.len() == the_plank_heap.planks@.len(),
            i <= lens.len(),
            step.wf(),
            step.model() == scan_planks(lens.take(i as int), goal, prev),
        decreases lens.len() - i,
    {
        let plank = the_plank_heap.planks[i];
        proof {
            assert(forall|k: int| 0 <= k < lens.len() ==> 0 <= #[trigger] lens[k]
                <= Plank::MAX_LENGTH as int);
            assert(forall|k: int| 0 <= k < lens.take(i as int).len() ==> 0
                <= #[trigger] lens.take(i as int)[k] <= Plank::MAX_LENGTH as int);
            lemma_scan_bounds(lens.take(i as int), goal, prev, Plank::MAX_LENGTH as int);
            lemma_sum_take_succ(lens, i as int);
            lemma_sum_take_le(lens, i as int + 1);
            assert(step.model().total() + plank.length <= sum(lens.take(i as int))
                + plank.length);
            assert(sum(lens.take(i as int)) + lens[i as int] == sum(lens.take(i as int + 1)));
            assert(plank.length as int == lens[i as int]);
        }
        step = place_plank(step, plank, deck_length, previous_line_junctions);
        proof {
            let t = lens.take(i as int + 1);
            assert(t.drop_last() =~= lens.take(i as int));
            assert(t.last() == lens[i as int]);
        }
        i = i + 1;
    }
    proof {
        assert(lens.take(lens.len() as int) =~= lens);
    }
    if let Some(plank) = step.stash {
        let cleared = CalepineStep {
            remaining: step.remaining,
            selected: step.selected,
            stash: None,
        };
        proof {
            lemma_scan_bounds(lens, goal, prev, Plank::MAX_LENGTH as int);
            let s = scan_planks(lens, goal, prev);
            assert(cleared.model().total() + plank.length == s.total());
            assert(s.total() <= sum(lens));
        }
        step = place_plank(cleared, plank, deck_length, previous_line_junctions);
    }
    assert(step.model() == select_spec(lens, goal, prev));
    assert_length_goal_fulfilled(step, deck_length)
}

/// Validates a completed step against the row length goal. A step whose
/// selected planks fall short fails: with `NotEnoughPlanks` when nothing
/// remains anywhere, with `OnlyUnusablePlanksRemaining` and the step's
/// diagnostic dump otherwise.
pub fn assert_length_goal_fulfilled(step: CalepineStep, deck_length: usize) -> (result: Result<
    CalepineStep,
    CalepinageError,
>)
    requires
        step.wf(),
    ensures
        match result {
            Ok(s) => s == step && sum(step.model().selected) >= deck_length,
            Err(CalepinageError::NotEnoughPlanks) => sum(step.model().selected) < deck_length
                && sum(step.model().remaining) == 0,
            Err(CalepinageError::OnlyUnusablePlanksRemaining(s)) => sum(step.model().selected)
                < deck_length && sum(step.model().remaining) != 0 && s@ == render_step(
                step.model(),
            ),
        },
{
    if step.selected.total_length < deck_length {
        if step.remaining.total_length == 0 {
            Err(CalepinageError::NotEnoughPlanks)
        } else {
            let text = step.to_string();
            Err(CalepinageError::OnlyUnusablePlanksRemaining(text))
        }
    } else {
        Ok(step)
    }
}

/// The outcome of building all rows: the rows' plank lengths in order,
/// or the declared failure.
pub enum LayoutOutcome {
    Done(Seq<Seq<int>>),
    NotEnough,
    Unusable(StepModel),
}

/// Prefixes already-built rows onto a later outcome.
pub open spec fn prepend_rows(lines: Seq<Seq<int>>, o: LayoutOutcome) -> LayoutOutcome {
    match o {
        LayoutOutcome::Done(rest) => LayoutOutcome::Done(lines + rest),
        _ => o,
    }
}

/// Builds `k` rows out of the given planks: each row is the selection
/// against the previous row's junctions (none for the first row), and
/// its leftover planks feed the next row.
pub open spec fn layout_rows(planks: Seq<int>, goal: int, prev: Seq<int>, k: nat) -> LayoutOutcome
    decreases k,
{
    if k == 0 {
        LayoutOutcome::Done(Seq::empty())
    } else {
        let m = select_spec(planks, goal, prev);
        if sum(m.selected) >= goal {
            prepend_rows(
                seq![m.selected],
                layout_rows(m.remaining, goal, junctions(m.selected), (k - 1) as nat),
            )
        } else if sum(m.remaining) == 0 {
            LayoutOutcome::NotEnough
        } else {
            LayoutOutcome::Unusable(m)
        }
    }
}

/// No junction offset of `cur` is also a junction offset of `before`.
pub open spec fn no_shared_junction(cur: Seq<int>, before: Seq<int>) -> bool {
    forall|x: int| junctions(cur).contains(x) ==> !junctions(before).contains(x)
}

proof fn lemma_prepend_push(lines: Seq<Seq<int>>, sel: Seq<int>, o: LayoutOutcome)
    ensures
        prepend_rows(lines.push(sel), o) == prepend_rows(lines, prepend_rows(seq![sel], o)),
{
    match o {
        LayoutOutcome::Done(rest) => {
            assert(lines.push(sel) + rest =~= lines + (seq![sel] + rest));
        },
        _ => {},
    }
}

/// A completed build has exactly `k` rows, each reaching the goal, the
/// first avoiding the given junctions and each later row avoiding the
/// junctions of the row before it.
proof fn lemma_layout_rows_props(planks: Seq<int>, goal: int, prev: Seq<int>, k: nat)
    ensures
        match layout_rows(planks, goal, prev, k) {
            LayoutOutcome::Done(rows) => {
                &&& rows.len() == k
                &&& forall|i: int| 0 <= i < rows.len() ==> sum(#[trigger] rows[i]) >= goal
                &&& rows.len() > 0 ==> (forall|x: int|
                    junctions(rows[0]).contains(x) ==> !prev.contains(x))
                &&& forall|i: int| 1 <= i < rows.len() ==> no_shared_junction(
                    #[trigger] rows[i],
                    rows[i - 1],
                )
            },
            _ => true,
        },
    decreases k,
{
    if k > 0 {
        let m = select_spec(planks, goal, prev);
        if sum(m.selected) >= goal {
            let rec = layout_rows(m.remaining, goal, junctions(m.selected), (k - 1) as nat);
            lemma_layout_rows_props(m.remaining, goal, junctions(m.selected), (k - 1) as nat);
            lemma_select_avoid(planks, goal, prev);
            lemma_avoid_junctions(m.selected, prev);
            match rec {
                LayoutOutcome::Done(rest) => {
                    let rows = seq![m.selected] + rest;
                    assert(rows[0] == m.selected);
                    assert(forall|i: int| 1 <= i < rows.len() ==> #[trigger] rows[i] == rest[i
                        - 1]);
                    assert(forall|i: int| 0 <= i < rows.len() ==> sum(#[trigger] rows[i])
                        >= goal);
                    assert forall|i: int| 1 <= i < rows.len() implies no_shared_junction(
                        #[trigger] rows[i],
                        rows[i - 1],
                    ) by {
                        if i == 1 {
                            assert(rest.len() > 0);
                            assert(rows[1] == rest[0]);
                            assert(rows[0] == m.selected);
                        } else {
                            assert(rows[i] == rest[i - 1]);
                            assert(rows[i - 1] == rest[i - 2]);
                        }
                    }
                },
                _ => {},
            }
        }
    }
}

/// The junction constraint for the next row: none before the first row,
/// afterwards the junctions of the last row built.
pub open spec fn prev_junctions(lines: Seq<Seq<int>>) -> Seq<int> {
    if lines.len() == 0 {
        Seq::empty()
    } else {
        junctions(lines.last())
    }
}

/// Computes a full layout for the deck: the heap is normalized and
/// sorted by decreasing plank length once, then one row is selected per
/// width-unit of the deck, each against the previous row's junctions.
/// The result is exactly the specification-level build; a completed
/// layout has `deck.width` rows, every row reaches the deck length, and
/// consecutive rows share no junction offset.
#[verifier::loop_isolation(false)]
pub fn calepine(plank_heap: PlankHeap, deck: Deck) -> (result: Result<Calepinage, CalepinageError>)
    requires
        forall|i: int| 0 <= i < plank_heap.planks@.len() ==> (#[trigger] plank_heap.planks@[i]).valid(),
        sum(plank_heap.lens()) <= usize::MAX,
    ensures
        ({
            let outcome = layout_rows(
                sort_desc(plank_heap.lens()),
                deck.length as int,
                Seq::<int>::empty(),
                deck.width as nat,
            );
            match result {
                Ok(cal) => outcome == LayoutOutcome::Done(cal.line_lens()),
                Err(CalepinageError::NotEnoughPlanks) => outcome is NotEnough,
                Err(CalepinageError::OnlyUnusablePlanksRemaining(s)) => outcome matches
                    LayoutOutcome::Unusable(m) && s@ == render_step(m),
            }
        }),
        result matches Ok(cal) ==> {
            &&& cal.0@.len() == deck.width
            &&& forall|i: int| 0 <= i < cal.line_lens().len() ==> sum(#[trigger] cal.line_lens()[i])
                >= deck.length
            &&& forall|i: int| 1 <= i < cal.line_lens().len() ==> no_shared_junction(
                #[trigger] cal.line_lens()[i],
                cal.line_lens()[i - 1],
            )
        },
{
    let ghost input_lens = plank_heap.lens();
    let ghost goal = deck.length as int;
    let ghost width = deck.width as nat;
    let ghost sorted = sort_desc(input_lens);
    let ghost full = layout_rows(sorted, goal, Seq::<int>::empty(), width);

    let base = PlankHeap::from_planks(plank_heap.planks);
    proof {
        assert(base.lens() =~= input_lens);
        lemma_sort_desc_sum(input_lens);
        assert(forall|i: int| 0 <= i < input_lens.len() ==> 0 <= #[trigger] input_lens[i]
            <= Plank::MAX_LENGTH as int);
        lemma_sort_desc_range(input_lens, 0, Plank::MAX_LENGTH as int);
    }
    let total = base.total_length;
    let sorted_planks = sort_planks_desc(base.planks);
    let the_plank_heap = PlankHeap { planks: sorted_planks, total_length: total };
    proof {
        assert(the_plank_heap.lens() == sorted);
        assert forall|i: int| 0 <= i < the_plank_heap.planks@.len() implies (
        #[trigger] the_plank_heap.planks@[i]).valid() by {
            assert(the_plank_heap.lens()[i] == the_plank_heap.planks@[i].length as int);
            assert(0 <= sorted[i] <= Plank::MAX_LENGTH as int);
        }
        assert(the_plank_heap.wf());
    }

    let mut the_plank_heap = the_plank_heap;
    let mut calepinage = Calepinage(Vec::new());
    proof {
        assert(calepinage.line_lens() =~= Seq::<Seq<int>>::empty());
    }
    let mut row: usize = 0;
    while row < deck.width
        invariant
            row <= deck.width,
            goal == deck.length as int,
            width == deck.width as nat,
            full == layout_rows(sorted, goal, Seq::<int>::empty(), width),
            the_plank_heap.wf(),
            calepinage.0@.len() == row,
            forall|i: int| 0 <= i < calepinage.line_lens().len() ==> sum(
                #[trigger] calepinage.line_lens()[i],
            ) <= usize::MAX,
            prepend_rows(
                calepinage.line_lens(),
                layout_rows(
                    the_plank_heap.lens(),
                    goal,
                    prev_junctions(calepinage.line_lens()),
                    (deck.width - row) as nat,
                ),
            ) == full,
        decreases deck.width - row,
    {
        let previous_line_junctions: Vec<Junction> = if calepinage.0.len() == 0 {
            Vec::new()
        } else {
            proof {
                assert(calepinage.line_lens().last() == calepinage.0@.last().lens());
            }
            calepinage.0[calepinage.0.len() - 1].compute_junction()
        };
        proof {
            assert(junction_vals(previous_line_junctions@) =~= prev_junctions(
                calepinage.line_lens(),
            ));
        }
        let ghost prev = prev_junctions(calepinage.line_lens());
        let ghost m = select_spec(the_plank_heap.lens(), goal, prev);
        let ghost k = (deck.width - row) as nat;
        match select_planks_for_line(&the_plank_heap, deck.length, &previous_line_junctions) {
            Ok(step) => {
                proof {
                    lemma_prepend_push(
                        calepinage.line_lens(),
                        m.selected,
                        layout_rows(m.remaining, goal, junctions(m.selected), (k - 1) as nat),
                    );
                }
                let next_remaining = step.remaining;
                let selected = step.selected;
                the_plank_heap = next_remaining;
                let line = Line(selected.planks);
                proof {
                    assert(line.lens() == m.selected);
                    assert(sum(m.selected) == selected.total_length);
                }
                calepinage = calepinage.with_line(line);
                row = row + 1;
            },
            Err(CalepinageError::NotEnoughPlanks) => {
                proof {
                    assert(layout_rows(the_plank_heap.lens(), goal, prev, k)
                        == LayoutOutcome::NotEnough);
                    assert(full == LayoutOutcome::NotEnough);
                }
                return Err(CalepinageError::NotEnoughPlanks);
            },
            Err(CalepinageError::OnlyUnusablePlanksRemaining(s)) => {
                proof {
                    assert(layout_rows(the_plank_heap.lens(), goal, prev, k)
                        == LayoutOutcome::Unusable(m));
                    assert(full == LayoutOutcome::Unusable(m));
                }
                return Err(CalepinageError::OnlyUnusablePlanksRemaining(s));
            },
        }
    }
    proof {
        assert(calepinage.line_lens() + Seq::<Seq<int>>::empty() =~= calepinage.line_lens());
        assert(full == LayoutOutcome::Done(calepinage.line_lens()));
        lemma_layout_rows_props(sorted, goal, Seq::<int>::empty(), width);
    }
    Ok(calepinage)
}

} // verus!
