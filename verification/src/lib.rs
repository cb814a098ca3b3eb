//! Core of a hierarchical task manager: a forest of tasks with arbitrarily
//! nested subtasks, grouped into named projects, together with the
//! path-addressed mutations (add, complete, delete, move, clear) and the
//! JSON persistence round trip, including migration from a legacy
//! bare-array file layout.

pub mod clock;
pub mod codec;
pub mod errors;
pub mod jsonin;
pub mod jsonout;
pub mod model;
pub mod store;
pub mod tasks;
pub mod util;
