//! HWP EqEdit equation scripts.

pub mod error;
