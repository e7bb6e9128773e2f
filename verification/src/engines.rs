//! The engines: what is asked of each, and what its report comes to.
pub mod beam;
pub mod mcts;
pub mod minimax;
