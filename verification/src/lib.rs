//! The flow layout core: prepared children are collected from the elements of
//! a flow and distributed into regions, with spacing collapse, sticky blocks,
//! widow and orphan prevention, and paragraphs that flow around cutouts.

pub mod abs;
pub mod geom;
pub mod cutout;
pub mod width_provider;
pub mod frame;
pub mod diag;
pub mod wrap;
pub mod masthead;
pub mod cell;
pub mod elements;
pub mod engine;
pub mod child;
pub mod work;
pub mod model;
pub mod outcome;
pub mod distribute;
pub mod lines;
pub mod arrange;
pub mod collect;
pub mod laws;
