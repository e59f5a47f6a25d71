//! One query interface over several remote providers of pages and issues: a registry of
//! providers, fan-out over them that tolerates a failing provider, routing of ids by
//! their prefix, and the parsing and text extraction around them.

pub mod adapters;
pub mod cli;
pub mod domain;
pub mod ports;
pub mod service;
pub mod text;
