//! The logic of `tis`, a thumbnail image server: pages, links, escaping,
//! path confinement, directory listings, download marks, thumbnail caching and
//! TLS set-up, each with a contract that Verus checks.
//!
//! Nothing here touches the disk or the network. Where a request needs that,
//! a function says what to look up next and another takes the answer.

pub mod text;
pub mod escape;
pub mod path;
pub mod media;
pub mod order;
pub mod state;
pub mod html;
pub mod reply;
pub mod browse;
pub mod serve;
pub mod thumb;
pub mod tls;
