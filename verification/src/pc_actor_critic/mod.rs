//! The actor-critic agent.

pub mod agent;
pub mod bookkeeping;
pub mod champion;
pub mod config;
pub mod construction;
pub mod control;
pub mod correspondence;
pub mod crossover;
pub mod discounting;
pub mod episode;
pub mod ewma;
pub mod fisher;
pub mod fitting;
pub mod gradients;
pub mod hysteresis;
pub mod learning;
pub mod online;
pub mod persistence;
pub mod plasticity;
pub mod policy;
pub mod rehearsal;
pub mod rehearsing;
pub mod replay;
pub mod running;
pub mod scaling;
pub mod stepping;
pub mod topology;
pub mod trajectory;
pub mod validation;
