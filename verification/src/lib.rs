//! Verified core of the Verse document reader: key bindings, page
//! prefetching, texture and thumbnail caches, tab bookkeeping, search
//! navigation and the DOCX-to-HTML conversion.

pub mod text;
pub mod session;
pub mod keys;
pub mod render;
pub mod navigation;
pub mod cache;
pub mod tabs;
pub mod search;
pub mod commands;
pub mod docx;
pub mod disk_cache;
pub mod memory;
pub mod viewer;
pub mod engine;
