//! The compression of the output, as far as the file name decides it.

use vstd::prelude::*;
use crate::text::{has_suffix, to_chars};

verus! {

/// Enumeration representing compression types
#[derive(Debug, Clone, Copy, PartialEq, Eq, Structural)]
pub enum CompressionType {
    Uncompressed,
    Gzip,
}

impl CompressionType {
    /// The compression that a file name asks for: gzip where it ends in `.gz`.
    pub open spec fn of_extension(filename: Seq<char>) -> CompressionType {
        if has_suffix(filename, seq!['.', 'g', 'z']) {
            CompressionType::Gzip
        } else {
            CompressionType::Uncompressed
        }
    }

    /// Determine compression type from file extension
    pub fn from_extension(filename: &str) -> (compression: CompressionType)
        ensures
            compression == Self::of_extension(filename@),
    {
        let name = to_chars(filename);
        let n = name.len();
        if n >= 3 && name[n - 3] == '.' && name[n - 2] == 'g' && name[n - 1] == 'z' {
            proof {
                assert(name@.skip(n - 3) =~= seq!['.', 'g', 'z']);
            }
            CompressionType::Gzip
        } else {
            proof {
                if n >= 3 {
                    let tail = name@.skip(n - 3);
                    assert(tail[0] == name[n - 3] && tail[1] == name[n - 2] && tail[2] == name[n
                        - 1]);
                }
            }
            CompressionType::Uncompressed
        }
    }
}

} // verus!
