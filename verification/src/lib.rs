//! Personal knowledge management core: block and link vocabularies, text
//! analysis, structural checks and the small state machines behind the CLI.

pub mod text;
pub mod keywords;
pub mod error;
pub mod model;
pub mod parse;
pub mod promotion;
pub mod detect;
pub mod fuzzy;
pub mod ids;
pub mod block;
pub mod toc;
pub mod lint;
pub mod size;
pub mod session;
pub mod features;
pub mod hierarchy;
pub mod ghost;
pub mod commands;
pub mod database;
pub mod graph;
pub mod mcp;
pub mod quick;
pub mod synthesize;
pub mod suggest;
pub mod store;
pub mod spine;
pub mod ops;
pub mod grep;
pub mod application;
pub mod listing;
pub mod reorder;
pub mod tools;
pub mod ghosts;
pub mod gravity;
