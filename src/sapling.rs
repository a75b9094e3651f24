pub mod sapling_expanded_spending_key;
pub mod sapling_witness;
