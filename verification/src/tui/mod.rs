//! The interactive front end.

pub mod app;
pub mod horizon;
pub mod keys;
pub mod scene;
