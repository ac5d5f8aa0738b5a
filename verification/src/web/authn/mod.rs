//! The login step's decision logic.
pub mod form;
pub mod pwd;
