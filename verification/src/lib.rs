mod inline_vec;
pub mod iterators;
mod range_insertable;
mod range_removable;
mod vector;

pub use inline_vec::InlineVec;
pub use inline_vec::drained_of;
pub use inline_vec::lemma_drain_reverses;
pub use range_insertable::RangeInsertable;
pub use range_removable::RangeRemovable;
pub use range_removable::decided_by;
pub use range_removable::kept_of;
pub use range_removable::lemma_every_element_classified;
pub use range_removable::lemma_no_removal_keeps_all;
pub use range_removable::removed_of;
pub use vector::Vector;
