//! Deck-plank layout ("calepinage"): arrange planks from a heap into the
//! rows of a deck so that every row reaches the deck length and no seam
//! offset of a row reappears in the row just above it.

pub mod sums;
pub mod render;
pub mod plank;
pub mod heap;
pub mod line;
pub mod layout;
pub mod step;
pub mod sort;
pub mod select;

pub use plank::Deck;
pub use plank::Plank;
pub use heap::PlankHeap;
pub use line::Junction;
pub use line::Line;
pub use layout::Calepinage;
pub use step::CalepinageError;
pub use step::CalepineStep;
pub use select::calepine;
pub use select::select_planks_for_line;
pub use select::assert_length_goal_fulfilled;
pub use select::CalepineResult;
