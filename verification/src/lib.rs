//! A hierarchical discrete-event simulator for the Parallel DEVS formalism.
//!
//! A model is a tree: its leaves carry behaviour, its inner nodes couple
//! the ports of their children. The simulator advances the tree from one
//! event time to the next, routes the messages that models emit along the
//! couplings, and reports every step to the observers of each model.

pub mod containers;
pub mod couplings;
pub mod dynamic;
pub mod errors;
pub mod experiment;
pub mod json;
pub mod logger;
pub mod model;
pub mod names;
pub mod observer;
pub mod random;
pub mod root_simulator;
pub mod router;
pub mod sim_model;
pub mod simulator;
pub mod time;
pub mod variants;
