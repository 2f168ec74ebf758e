//! The search for the best turn.

pub mod board_node;
pub mod board_score;
pub mod candidates;
pub mod closure_laws;
pub mod completeness_laws;
pub mod cost;
pub mod djikstra;
pub mod laws;
pub mod neighbors;
pub mod optimality_laws;
pub mod order_laws;
pub mod pruning_laws;
pub mod rearranged_laws;
pub mod table_laws;
pub mod tables;
pub mod transfer_laws;
pub mod turn_laws;
pub mod turn_rules;
pub mod visit_laws;
