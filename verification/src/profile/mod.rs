//! Saved monitor layouts.
pub mod apply;
pub mod apply_laws;
pub mod choice_laws;
pub mod command_laws;
pub mod course_laws;
pub mod expected_laws;
pub mod field_laws;
pub mod layout_laws;
pub mod matching;
pub mod matching_laws;
pub mod mode_laws;
pub mod modes;
pub mod pair_laws;
pub mod persist;
pub mod plan;
pub mod plan_laws;
pub mod recognition_laws;
pub mod render;
pub mod render_laws;
pub mod store;
pub mod store_laws;
pub mod transaction;
pub mod validation;
pub mod validity_laws;
