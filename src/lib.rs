//! Remote-memory stack walking for a CPython interpreter: typed field access
//! through a layout descriptor, thread enumeration, frame walking, line-table
//! decoding and string decoding, all over an opaque remote reader.
#![allow(non_camel_case_types)]
#![allow(non_snake_case)]

pub mod bitfield;
pub mod ascii_state;
pub mod memory;
pub mod layout;
pub mod utf8;
pub mod strings;
pub mod linetable;
pub mod resolve;
pub mod walker;
pub mod chains;
