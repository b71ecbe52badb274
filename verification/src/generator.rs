//! The generator of chunk dictionaries and prefetch blobs.

use vstd::prelude::*;

verus! {

/// Builds chunk-dictionary trees and repacks chunks into prefetch blobs.
pub struct Generator {}

} // verus!
