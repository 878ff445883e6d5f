//! Masked byte-signature compilation and search over module images.

pub mod lemmas;
pub mod modules;
pub mod signature;
