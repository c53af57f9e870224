//! Predictive-coding actor-critic agent: the learning rules, plasticity state
//! machines, replay memory and recovery controls, proved against their contracts.
//!
//! Numbers are [`scalar::Scalar`] values (IEEE-754 doubles held as bit patterns).
//! Comparisons on them are decided here; arithmetic comes from the numeric backend,
//! a type implementing [`linalg::LinAlg`]. The mathematics of the networks comes from a
//! type implementing [`network_ops::Networks`].

pub mod elementwise;
pub mod error;
pub mod linalg;
pub mod network_ops;
pub mod networks;
pub mod numeric;
pub mod pc_actor_critic;
pub mod random;
pub mod reading;
pub mod scalar;
pub mod serializer;
pub mod text;
