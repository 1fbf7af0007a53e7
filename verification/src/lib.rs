use vstd::prelude::*;

pub mod agent;
pub mod alignment;
pub mod artifacts;
pub mod complexity;
pub mod compliance;
pub mod domain;
pub mod evidence;
pub mod focus;
pub mod graph;
pub mod lifecycle;
pub mod mission;
pub mod names;
pub mod output;
pub mod paths;
pub mod planning;
pub mod report;
pub mod scorer;
pub mod signal;
pub mod task_quality;
pub mod text;
pub mod tier;
pub mod validation;
pub mod verdict;
