//! Hardware description handed over at boot.

pub mod boot_info;
