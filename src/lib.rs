//! A record store for employment reviews: one review record per owner and
//! institution, kept at an address derived from both.
pub mod address;
pub mod codec;
pub mod error;
pub mod instruction;
pub mod state;
pub mod processor;
pub mod lifecycle;
