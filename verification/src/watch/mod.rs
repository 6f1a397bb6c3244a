//! Watching a mod project for changes, and what follows from one.

pub mod ignore;
pub mod state;
pub mod scan;
pub mod reload;
