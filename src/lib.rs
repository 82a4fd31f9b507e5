//! A file-tree copier's transfer engine: destination parsing, the scanner's
//! policies, the framed wire codec and the bounded dispatcher, each with a
//! contract that Verus proves.

pub mod align;
pub mod destination;
pub mod checksum;
pub mod compress;
pub mod bytes;
pub mod frame;
pub mod scan;
pub mod scheduler;
pub mod remote;
pub mod transfer;
