//! A hybrid reasoning engine: NARS-style truth maintenance and rule-based
//! unification combined with hyperdimensional computing for soft semantic
//! association under bounded resources.
//!
//! Quantities that live in the real interval [0, 1] (frequencies, confidences,
//! priorities, similarities) are represented as fixed-point integers scaled by
//! `scale::UNIT`.

pub mod bag;
pub mod hyper;
pub mod memory;
pub mod rng;
pub mod rules;
pub mod scale;
pub mod sentence;
pub mod system;
pub mod term;
pub mod truth;
pub mod unify;
