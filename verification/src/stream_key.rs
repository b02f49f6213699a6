//! The name of a logical stream.
use vstd::prelude::*;

verus! {

/// Names one logical stream for as long as that stream lives.
///
/// Two keys name the same stream exactly when their identifiers are equal.
#[derive(Clone, Copy, Debug, PartialEq, Eq, Hash, Structural)]
pub struct StreamKey {
    pub id: u64,
}

impl StreamKey {
    /// The key whose identifier is `id`.
    pub fn new(id: u64) -> (key: StreamKey)
        ensures
            key == (StreamKey { id }),
    {
        StreamKey { id }
    }
}

} // verus!
