//! Recipes, metadata rules and export decisions of an offline photo and video organizer.
pub mod desktop;
pub mod engine;
pub mod external;
pub mod laws;
pub mod metadata;
pub mod paths;
pub mod recipe;
pub mod text;

pub use engine::{check_cancel, progress, Companion, Progress};
pub use paths::extension;
pub use recipe::Recipe;
