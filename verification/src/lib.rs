//! Voice filtering, persona prompts and edit learning for text produced by language models.

pub mod text;
pub mod time;
pub mod filter;
pub mod model;
pub mod prompt;
pub mod dna;
pub mod sort;
pub mod ratio;
pub mod tracker;
pub mod detector;
pub mod store;
pub mod learner;
pub mod sandbox;
