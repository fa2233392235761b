//! Protocol logic for the I2C environment sensors of a sensing node
//! (DPS310, BH1750, RPR-0521RS, SCD41), written without I/O: each bus
//! procedure is a script that a driver runs against the bus, and each
//! reply is decoded by a verified function.

pub mod twos;
pub mod dps310;
pub mod scd41;
mod byte_order;
pub mod bh1750;
pub mod rpr0521rs;
pub mod bus;
pub mod mqtt;
pub mod wifi;
