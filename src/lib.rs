//! A small observability pipeline: events flow from sources through a
//! validated graph of transforms into sinks.

pub mod collector;
pub mod condition;
pub mod event;
pub mod graph;
pub mod helper;
pub mod name;
pub mod ordered;
pub mod output;
pub mod pattern;
pub mod resolve;
pub mod sources;
pub mod text;
pub mod topology;
pub mod transforms;
pub mod validation;
