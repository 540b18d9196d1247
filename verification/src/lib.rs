//! Inspection of a frozen task's loaded images and construction of the
//! minidump module-list stream.
//!
//! The kernel calls that read the target task's memory live outside this
//! crate; everything here works on plain values the caller already read:
//! page-window arithmetic, virtual-memory region bounds, the Mach-O
//! header and load-command decoding, image dedup and ordering, version
//! repacking, and the serialization of module records into the dump
//! buffer.

pub mod bytes;
pub mod dump_buf;
pub mod load_commands;
pub mod module_list;
pub mod task_dumper;
