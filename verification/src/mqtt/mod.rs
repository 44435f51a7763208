pub mod callbacks;
pub mod engine;
