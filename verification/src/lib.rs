//! Code-intelligence engine: dependency graphs of source projects, structural
//! analyses over them (cycles, hotspots, change impact, architecture) and the
//! compact context windows handed to AI providers.

pub mod models;
pub mod text;
pub mod cycles;
pub mod hotspots;
pub mod impact;
pub mod architecture;
pub mod errors;
pub mod context;
pub mod ports;
pub mod ai;
pub mod json;
pub mod graph;
pub mod syntax;
pub mod parser;
pub mod ts_parser;
pub mod rust_parser;
pub mod registry;
pub mod commands;
pub mod scan_service;
pub mod services;
pub mod snapshots;
pub mod migrations;
