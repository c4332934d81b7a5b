//! The storage back ends that chunks go to.

use vstd::prelude::*;

verus! {

/// The back end of a storage policy: the server itself, or an external store by
/// its place in the caller's table of stores.
#[derive(Debug, Clone, Copy, PartialEq, Eq, Structural)]
pub enum PolicyType {
    Local,
    External(u16),
}

}
