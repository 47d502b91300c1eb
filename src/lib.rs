//! Challenge–response authentication for pairing an accessory with a host.
//!
//! The crate is layered: [`aes`] holds the single-block cipher and the
//! counter-mode keystream, chained hash and tag mask built from it;
//! [`records`] holds the fixed byte layouts of the challenge records; and
//! [`challenge`] composes both into the pairing and reconnect operations.
pub mod aes;
pub mod records;
pub mod challenge;
pub mod services;

pub use services::{BatteryService, CertificateService, LEDButtonService};
