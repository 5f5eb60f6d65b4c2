//! What holds of everything that is generated.
pub mod after;
pub mod blocks;
pub mod bodies;
pub mod counters;
pub mod follow;
pub mod lines;
pub mod more;
pub mod names;
pub mod numbers;
pub mod paths;
pub mod ready;
pub mod recursion;
pub mod refusals;
pub mod steps;
pub mod tags;
pub mod texts;
pub mod whitespace;
