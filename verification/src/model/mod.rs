//! Plan and progress models shared by the wizard and the headless path.
pub mod install_plan;
pub mod progress;
