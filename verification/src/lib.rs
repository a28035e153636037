//! Tools for inspecting and patching CMSIS-SVD device descriptions.

pub mod analyze;
pub mod common;
pub mod convert;
pub mod enum_extract;
pub mod info;
pub mod interrupts;
pub mod makedeps;
pub mod mmap;
pub mod model;
pub mod patch;
pub mod text;
