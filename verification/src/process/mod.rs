//! User processes: the description of a program image and its loading into
//! an address space.

pub mod from_image;
pub mod image;
pub mod loader;
