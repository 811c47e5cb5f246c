//! Recovery of `defmt` log records that a device persisted in its flash.
//!
//! The crate holds the pure stages of the extraction: turning a textual
//! memory dump into bytes, cutting the bytes into frames and reversing their
//! byte stuffing, deciding which source locations may be shown, and
//! rendering the source path of a record in a short, readable form.

pub mod cli;
pub mod dep;
pub mod dump;
pub mod elf;
pub mod frames;
pub mod locations;
pub mod pipeline;
pub mod storage;
pub mod style;
