//! The interface a front end implements to drive a machine.

mod interface;

pub use interface::Interface;
