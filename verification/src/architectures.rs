//! Descriptions of processors that do not depend on one architecture.

pub mod generic;
