//! The installer's decisions, text formats and validation rules,
//! verified with Verus.
pub mod autoinstall;
pub mod backend;
pub mod env;
pub mod model;
pub mod snapshot;
pub mod text;
pub mod tzdata;
pub mod wizard;

