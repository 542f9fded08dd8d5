//! A point-mass and stick network: stable-keyed points joined by links of
//! fixed rest length, advanced by position-based integration and iterated
//! constraint relaxation, and edited while it runs.
//!
//! Real numbers are carried as IEEE 754 bit patterns ([`scalar::Scalar`]).
//! They are compared here, and rounded to whole numbers, but not computed
//! with: every formula of the simulation is a kernel that the caller hands
//! in. A kernel returns positions or measurements ([`measure`]); what is
//! done with them is decided here, and the contracts say how.

pub mod scalar;
pub mod vector;
pub mod measure;
pub mod network;
pub mod slots;
pub mod order;
pub mod ropes;
