pub mod bits;
pub mod codes;
pub mod evaluation;
pub mod minmax_ai;
pub mod monte_carlo_ai;
pub mod random;
pub mod rules;
pub mod state;
pub mod text;
pub mod value_ai;

use vstd::prelude::*;

verus! {

/// A player that picks a column.
pub trait Ai {
    fn best_move(&self, state: state::State) -> (r: usize)
        requires
            !rules::game_over(state@),
        ensures
            r < 7,
            rules::can_drop(state@, r as int),
    ;
}

} // verus!
