//! A minimal peer-to-peer segmented file-transfer library.
//!
//! A node splits a local file into fixed-size segments, advertises segment
//! availability to a requesting peer, and serves individual segments on
//! demand; the requester reassembles the file from received segments and
//! hands the result off for persistence once complete.
//!
//! The crate verifies the segmented-file data model (`file`), the shared
//! storage of managed files (`storage`, `memory`), and the two protocol
//! state machines (`client`, `listener`). Networking, serialization and
//! disk access are collaborators that live outside this crate.

use vstd::prelude::*;

pub mod client;
pub mod file;
pub mod laws;
pub mod listener;
pub mod messages;
pub mod model;
pub mod storage;

verus! {

/// Default segment size, in bytes, shared by all peers of a swarm: 256 KiB.
/// Segment numbering — not byte offsets — is the addressing scheme on the
/// wire, so all peers of one exchange must agree on this value; the
/// constructors therefore take the segment size as an explicit argument.
pub const SEGMENT_SIZE: usize = 256 * 1024;

} // verus!
