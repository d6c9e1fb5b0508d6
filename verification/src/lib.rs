//! Block-storage access layer of a small kernel: a driver for the legacy
//! parallel ATA/IDE controllers in programmed-I/O mode.
//!
//! The driver is verified against an explicit model of the controller
//! hardware: a [`chan::Channel`] holds the command-block and control-block
//! registers of one channel together with the two devices that may answer on
//! it.  The [`ata`] module implements the bus protocol (drive selection,
//! command-argument encoding, command issuance, word-at-a-time transfer,
//! device identification) over that model, and the [`fs`] module holds the
//! superblock check that the filesystem layer performs over block I/O.
pub mod ata;
pub mod chan;
pub mod device;
pub mod fs;
pub mod words;
