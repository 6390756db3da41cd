//! Driver logic for a character display behind an I2C GPIO expander.
//!
//! The library does not touch hardware. Each operation appends to a
//! script of register-level [`bus::Action`]s that an executor performs in
//! order on the I2C peripheral and the delay timer. The contracts pin that
//! script down exactly.
pub mod bus;
pub mod lcd;

pub use bus::i2c_start;
