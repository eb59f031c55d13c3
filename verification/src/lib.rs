//! A small file system: its metadata, its requests, and what they promise.

pub mod allocator;
pub mod bitmap;
pub mod config;
pub mod consistency;
pub mod directory;
pub mod directory_io;
pub mod errno;
pub mod extent;
pub mod fs;
pub mod hello;
pub mod inode;
pub mod laws;
pub mod meta;
pub mod mode;
pub mod naming;
pub mod promises;
pub mod requests;
pub mod time;
pub mod toy;
