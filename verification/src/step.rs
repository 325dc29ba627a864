//! The transient working state of one row's selection: the planks still
//! available, the planks chosen for the row, and at most one plank set
//! aside for a second placement attempt.

use vstd::prelude::*;
use crate::plank::Plank;
use crate::heap::PlankHeap;
use crate::render::dec_str;
use crate::render::render_lens;
use crate::render::append_dec;

verus! {

/// The mathematical model of a selection step: the plank lengths of each
/// part, and the stashed length if any.
pub struct StepModel {
    pub remaining: Seq<int>,
    pub selected: Seq<int>,
    pub stash: Option<int>,
}

impl StepModel {
    /// The step with nothing selected, nothing remaining and no stash.
    pub open spec fn empty() -> StepModel {
        StepModel { remaining: Seq::empty(), selected: Seq::empty(), stash: None }
    }

    /// The stashed length, or zero without a stash.
    pub open spec fn stash_len(self) -> int {
        match self.stash {
            Some(l) => l,
            None => 0,
        }
    }

    /// The combined length held by all three parts of the step.
    pub open spec fn total(self) -> int {
        crate::sums::sum(self.remaining) + crate::sums::sum(self.selected) + self.stash_len()
    }

    /// Every length in the step lies in `[0, bound]`.
    pub open spec fn in_range(self, bound: int) -> bool {
        &&& forall|i: int| 0 <= i < self.remaining.len() ==> 0 <= #[trigger] self.remaining[i]
            <= bound
        &&& forall|i: int| 0 <= i < self.selected.len() ==> 0 <= #[trigger] self.selected[i]
            <= bound
        &&& 0 <= self.stash_len() <= bound
    }
}

/// Working state while planks are selected for one row.
#[derive(Debug, PartialEq)]
pub struct CalepineStep {
    pub remaining: PlankHeap,
    pub selected: PlankHeap,
    pub stash: Option<Plank>,
}

impl CalepineStep {
    /// The lengths held by each part of the step.
    pub open spec fn model(&self) -> StepModel {
        StepModel {
            remaining: self.remaining.lens(),
            selected: self.selected.lens(),
            stash: match self.stash {
                Some(p) => Some(p.length as int),
                None => None,
            },
        }
    }

    /// Both heaps are well-formed and a stashed plank is within bounds.
    pub open spec fn wf(&self) -> bool {
        &&& self.remaining.wf()
        &&& self.selected.wf()
        &&& match self.stash {
            Some(p) => p.valid(),
            None => true,
        }
    }

    /// The diagnostic dump of the step: remaining and selected lengths,
    /// and the stash.
    pub fn to_string(&self) -> (s: String)
        ensures
            s@ == render_step(self.model()),
    {
        let mut s = String::new();
        s.append("remaining = [");
        crate::render::append_lens(&mut s, &self.remaining.planks);
        s.append("], selected = [");
        crate::render::append_lens(&mut s, &self.selected.planks);
        s.append("], stash = ");
        match &self.stash {
            Some(p) => {
                s.append("Some(Plank { length: ");
                append_dec(&mut s, p.length);
                s.append(" })");
            },
            None => {
                s.append("None");
            },
        }
        s
    }
}

/// The textual form of a step's stash, matching the debug form of an
/// optional plank.
pub open spec fn render_stash(stash: Option<int>) -> Seq<char> {
    match stash {
        Some(l) => "Some(Plank { length: "@ + dec_str(l as nat) + " })"@,
        None => "None"@,
    }
}

/// The diagnostic textual form of a selection step.
pub open spec fn render_step(m: StepModel) -> Seq<char> {
    "remaining = ["@ + render_lens(m.remaining) + "], selected = ["@ + render_lens(m.selected)
        + "], stash = "@ + render_stash(m.stash)
}

impl Default for CalepineStep {
    /// The step with empty heaps and no stash.
    fn default() -> (r: Self)
        ensures
            r.model() == StepModel::empty(),
            r.wf(),
            r.remaining.planks@ == Seq::<Plank>::empty(),
            r.selected.planks@ == Seq::<Plank>::empty(),
            r.stash is None,
    {
        let r = CalepineStep {
            remaining: PlankHeap::new(),
            selected: PlankHeap::new(),
            stash: None,
        };
        proof {
            assert(r.model().remaining =~= StepModel::empty().remaining);
            assert(r.model().selected =~= StepModel::empty().selected);
        }
        r
    }
}

/// Why a layout could not be completed: either no planks remain at all
/// for a row that is still short, or planks remain but none can be
/// placed; the latter carries the failing step's diagnostic dump.
#[derive(Debug, PartialEq)]
pub enum CalepinageError {
    NotEnoughPlanks,
    OnlyUnusablePlanksRemaining(String),
}

} // verus!
