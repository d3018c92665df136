//! Build files from their dependencies, in dependency order, rebuilding only
//! what is out of date.
//!
//! Rules are gathered by a [`DepGraphBuilder`] and compiled into a [`DepGraph`],
//! which is checked for duplicate outputs and circular dependencies. Running the
//! build is a [`MakeRun`]: it decides, one step at a time, which file to look at,
//! which build step to run and when the build is over; the caller touches the
//! file system and reports back.
mod digraph;
mod error;
mod graph;
mod laws;
mod make;

pub use error::{DepResult, Error};
pub use graph::{DepGraph, DepGraphBuilder};
pub use laws::{dependency_files, lemma_node_count, lemma_up_to_date_not_rebuilt, output_files};
pub use make::{dependencies_newer, Action, Event, MakeParams, MakeRun, Phase};
