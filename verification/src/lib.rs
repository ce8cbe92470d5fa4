//! A 2-D Ising-model Monte Carlo core: a toroidal spin lattice, its
//! observables, and the deterministic parts of two stochastic update
//! schemes (single-site heat-bath and Wolff cluster flipping).
//!
//! Floating-point work — the heat-bath and Wolff acceptance probabilities
//! and the action's final scaling — is left to the caller, which hands the
//! resulting integer draws and boolean decisions to the verified functions
//! here.

pub mod cluster;
pub mod lattice;
pub mod parse;
pub mod update;
