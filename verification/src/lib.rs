//! Generates the code of a template from its parsed nodes.
pub mod buffer;
pub mod check;
pub mod code;
pub mod derive;
pub mod expr;
pub mod generator;
pub mod laws;
pub mod loops;
pub mod mime;
pub mod model;
pub mod node;
pub mod partials;
pub mod path;
pub mod ready;
pub mod spaces;
pub mod text;
