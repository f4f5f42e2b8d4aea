mod cell;
mod seeding;
mod universe;

pub use cell::spec_cell_transform;
pub use cell::Cell;
pub use seeding::generate_universe;
pub use universe::glyph;
pub use universe::lemma_all_dead_fixed_point;
pub use universe::lemma_block_still_life;
pub use universe::lemma_height_one_policy;
pub use universe::lemma_index_injective;
pub use universe::lemma_index_onto;
pub use universe::lemma_index_range;
pub use universe::lemma_isolated_cell_dies;
pub use universe::lemma_l_shape_births_block;
pub use universe::lemma_single_cell_policy;
pub use universe::lemma_width_one_policy;
pub use universe::lemma_wrap;
pub use universe::valid_dims;
pub use universe::wrap_next;
pub use universe::wrap_prev;
pub use universe::GridError;
pub use universe::Universe;
