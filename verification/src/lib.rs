//! Turns an ELF executable into one contiguous, zero-filled image with its
//! load address, ready to be handed to a firmware-update transport.

pub mod arguments;
pub mod elf;
pub mod error;
pub mod guarantees;
pub mod image;
pub mod number;
pub mod segment;
pub mod vendor;
