//! The editor: layouts on a canvas of cells.
pub mod dialog_laws;
pub mod editing_laws;
pub mod geometry;
pub mod geometry_laws;
pub mod input;
pub mod input_laws;
pub mod layout;
pub mod layout_laws;
pub mod model;
pub mod steps;
pub mod steps_laws;
pub mod view;
pub mod view_laws;

pub use self::model::{
    initial_model, require_draft_plan, StoreChange, TuiAction, TuiApp, TuiCurrentMonitorRow,
    TuiEffect, TuiInputMode, TuiModel, TuiMonitorRow, TuiProfileRow,
};
pub use self::view::format_snapshot;
