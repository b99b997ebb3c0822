//! Sonar contact detection and synthetic ping generation.
//!
//! The library holds the decisions of the sonar analysis: how a smoothed
//! ping is cut into contact signatures, which signature becomes a contact,
//! where its peak lies and how it is classified, and how a synthetic ping is
//! laid out from random draws. Sample values are carried as the bit patterns
//! of the single-precision floats they stand for; the arithmetic on those
//! floats is left to the caller.

pub mod contact;
pub mod level;
pub mod detect;
pub mod random;
pub mod synth;
