//! Register-level model of two bus devices (I²C and SPI) and the rules for
//! copying a register value from one device to the other.

pub mod device;
pub mod transfer;
