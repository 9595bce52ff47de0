pub mod common;
pub mod examples;
pub mod orders;
pub mod plan;
pub mod player;
pub mod profiler;
pub mod random;
pub mod roles;
pub mod scenarios;
pub mod search;
pub mod simulator;
pub mod solid;
pub mod targets;
pub mod world;
pub mod strategy;
