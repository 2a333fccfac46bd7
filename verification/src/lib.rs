//! Mutation testing for Solidity projects: the verified core of `dregs`.
pub mod cli;
pub mod config;
pub mod diff;
pub mod external;
pub mod generator;
pub mod ignore;
pub mod json;
pub mod manifest;
pub mod partition;
pub mod paths;
pub mod report;
pub mod runner;
pub mod text;
