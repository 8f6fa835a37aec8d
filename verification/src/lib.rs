//! Locating a USB device among the entries of the kernel's device registry
//! and preparing the bus-level reset that is issued to it.
//!
//! The crate holds the decision logic only: parsing a user-supplied device
//! identifier, resolving it against a snapshot of per-device attribute
//! files, and computing the control-node path and the fixed reset command.
//! Reading the registry from disk and issuing the ioctl are left to the
//! surrounding program, which hands plain byte strings in and out.

pub mod error;
pub mod ident;
pub mod registry;
pub mod reset;
pub mod text;
