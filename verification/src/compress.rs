//! Compression algorithm tags carried by blobs.

use vstd::prelude::*;
use vstd::string::StringExecFns;
use crate::error::BuildError;

verus! {

/// The algorithm with which the chunks of a blob are compressed.
#[derive(Clone, Copy, Debug, PartialEq, Eq, Structural)]
pub enum Algorithm {
    Uncompressed,
    Lz4Block,
    GZip,
    Zstd,
}

impl Algorithm {
    /// The algorithm that a name stands for, if the name is one of the four known ones.
    pub open spec fn named(name: Seq<char>) -> Option<Algorithm> {
        if name == "none"@ {
            Some(Algorithm::Uncompressed)
        } else if name == "lz4_block"@ {
            Some(Algorithm::Lz4Block)
        } else if name == "gzip"@ {
            Some(Algorithm::GZip)
        } else if name == "zstd"@ {
            Some(Algorithm::Zstd)
        } else {
            None
        }
    }

    /// Parses the name of a compression algorithm.
    pub fn from_name(name: &String) -> (parsed: Result<Algorithm, BuildError>)
        ensures
            parsed == match Algorithm::named(name@) {
                Some(a) => Ok::<Algorithm, BuildError>(a),
                None => Err::<Algorithm, BuildError>(BuildError::UnknownCompressor),
            },
    {
        if same_text(name, &String::from_str("none")) {
            Ok(Algorithm::Uncompressed)
        } else if same_text(name, &String::from_str("lz4_block")) {
            Ok(Algorithm::Lz4Block)
        } else if same_text(name, &String::from_str("gzip")) {
            Ok(Algorithm::GZip)
        } else if same_text(name, &String::from_str("zstd")) {
            Ok(Algorithm::Zstd)
        } else {
            Err(BuildError::UnknownCompressor)
        }
    }
}

/// Whether two strings hold the same characters.
pub fn same_text(a: &String, b: &String) -> (same: bool)
    ensures
        same == (a@ == b@),
{
    *a == *b
}

} // verus!
