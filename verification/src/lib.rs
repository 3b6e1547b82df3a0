//! Parsing, typed decoding and download planning for HLS playlists.
//!
//! The pipeline runs in stages: the lexer turns playlist text into raw
//! lines, the token stream flattens those lines into nodes, the decoder
//! binds the nodes to typed tags, and the watcher diffs successive
//! manifests into download events that the resolver and dispatcher turn
//! into concrete work items.

use vstd::prelude::*;

pub mod decode;
pub mod downloader;
pub mod error;
pub mod fs;
pub mod hex;
pub mod laws;
pub mod lexer;
pub mod manifest;
pub mod nodes;
pub mod playlist;
pub mod text;
pub mod watcher;
pub mod work_queue;

verus! {

/// A video resolution attribute value, `WIDTHxHEIGHT` on the wire.
#[derive(Clone, Copy, Debug, PartialEq, Eq, Structural)]
pub struct Resolution {
    pub width: u64,
    pub height: u64,
}

} // verus!
