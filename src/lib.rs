//! A layout flow engine: the flow tree, its passes, and the geometry they share.

pub mod units;
pub mod geometry;
pub mod flags;
pub mod absolute;
pub mod flow;
pub mod tree;
pub mod layout;
pub mod overflow;
pub mod passes;
pub mod baseline;
pub mod fragment;
pub mod positioning;
