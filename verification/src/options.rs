//! The options of a scan, resolved once before the traversal begins.

use vstd::prelude::*;
use vstd::string::StringExecFns;
use crate::compression::CompressionType;
use crate::paths::{file_name, find_file_name, joined, parent, parent_end, substring};
use crate::text::{has_suffix, to_chars};

verus! {

/// The compression level that is used where none is given.
pub const DEFAULT_COMPRESSION_LEVEL: u8 = 6;

/// The options of a run: the rules of the scan, and where and how the
/// output is written.
#[derive(Debug)]
pub struct Options {
    pub apparent_size: bool,
    pub cross_mount_points: bool,
    pub include_zero_files: bool,
    pub include_empty_folders: bool,
    pub compression_type: CompressionType,
    pub output_filename: Option<String>,
    pub compression_level: u8,  // 0-9 (gzip)
    pub force_overwrite: bool,
}

/// The rules of a scan: what is measured and what is included.
#[derive(Debug, Clone, Copy)]
pub struct ScanOptions {
    /// Report the length of a file's content instead of its storage.
    pub apparent_size: bool,
    /// Scan directories on other devices than the root's.
    pub cross_mount_points: bool,
    /// Emit files of size zero.
    pub include_zero_files: bool,
    /// Emit folders in which nothing is emitted.
    pub include_empty_folders: bool,
}

/// The values of the command line's arguments, as the argument parser
/// hands them over.
#[derive(Debug)]
pub struct Matches {
    pub directory: String,
    pub output: Option<String>,
    pub apparent_size: bool,
    pub mounts: bool,
    pub zero_files: bool,
    pub empty_folders: bool,
    pub gzip: bool,
    pub no_gzip: bool,
    pub compression_level: Option<u8>,
    pub force: bool,
}

/// The extension of a scan dump.
pub open spec fn dump_extension() -> Seq<char> {
    seq!['.', 'g', 'p', 's', 'c', 'a', 'n']
}

/// `s` without the dots at its end.
pub open spec fn without_trailing_dots(s: Seq<char>) -> Seq<char>
    decreases s.len(),
{
    if s.len() > 0 && s.last() == '.' {
        without_trailing_dots(s.drop_last())
    } else {
        s
    }
}

/// Whether an output file name is left as it is: it ends in a path
/// separator or leads to no file name, so it names no file; or its file
/// name already carries the dump extension, or consists of dots only.
pub open spec fn keeps_output_filename(filename: Seq<char>) -> bool {
    ||| filename.len() > 0 && (filename.last() == '/' || filename.last() == '\\')
    ||| match file_name(filename) {
        Some(name) => has_suffix(name, dump_extension()) || without_trailing_dots(name).len()
            == 0,
        None => true,
    }
}

/// The name of the file that is written for a requested output file name:
/// in the directory of the requested name, its file name without the dots
/// at its end, with the dump extension.
pub open spec fn output_filename_of(filename: Seq<char>) -> Seq<char> {
    if keeps_output_filename(filename) {
        filename
    } else {
        joined(
            parent(filename),
            without_trailing_dots(file_name(filename)->0) + dump_extension(),
        )
    }
}

/// The compression of the output: a file is compressed unless that is
/// switched off, standard output only on request.
pub open spec fn compression_of(to_file: bool, gzip: bool, no_gzip: bool) -> CompressionType {
    if to_file {
        if no_gzip {
            CompressionType::Uncompressed
        } else {
            CompressionType::Gzip
        }
    } else {
        if gzip {
            CompressionType::Gzip
        } else {
            CompressionType::Uncompressed
        }
    }
}

/// Whether the characters from `start` up to `end` end with the dump
/// extension.
fn ends_with_dump_extension(chars: &Vec<char>, start: usize, end: usize) -> (ends: bool)
    requires
        start <= end <= chars.len(),
    ensures
        ends == has_suffix(chars@.subrange(start as int, end as int), dump_extension()),
{
    let ghost name = chars@.subrange(start as int, end as int);
    if end - start < 7 {
        return false;
    }
    let ends = chars[end - 7] == '.' && chars[end - 6] == 'g' && chars[end - 5] == 'p' && chars[end
        - 4] == 's' && chars[end - 3] == 'c' && chars[end - 2] == 'a' && chars[end - 1] == 'n';
    proof {
        let tail = name.skip(name.len() - 7);
        assert(forall|k: int| 0 <= k < 7 ==> tail[k] == chars[end - 7 + k]);
        if ends {
            assert(tail =~= dump_extension());
        } else {
            assert(tail[0] == chars[end - 7] && tail[1] == chars[end - 6] && tail[2] == chars[end
                - 5] && tail[3] == chars[end - 4] && tail[4] == chars[end - 3] && tail[5]
                == chars[end - 2] && tail[6] == chars[end - 1]);
        }
    }
    ends
}

impl Matches {
    /// The rules of the scan that the arguments ask for.
    pub open spec fn rules(&self) -> ScanOptions {
        ScanOptions {
            apparent_size: self.apparent_size,
            cross_mount_points: self.mounts,
            include_zero_files: self.zero_files,
            include_empty_folders: self.empty_folders,
        }
    }
}

impl Options {
    /// The rules of the scan among the options.
    pub open spec fn rules(&self) -> ScanOptions {
        ScanOptions {
            apparent_size: self.apparent_size,
            cross_mount_points: self.cross_mount_points,
            include_zero_files: self.include_zero_files,
            include_empty_folders: self.include_empty_folders,
        }
    }

    /// The options that the command line's arguments ask for.
    pub fn from_matches(matches: &Matches) -> (options: Options)
        ensures
            options.apparent_size == matches.apparent_size,
            options.cross_mount_points == matches.mounts,
            options.include_zero_files == matches.zero_files,
            options.include_empty_folders == matches.empty_folders,
            options.compression_type == compression_of(
                matches.output is Some,
                matches.gzip,
                matches.no_gzip,
            ),
            match matches.output {
                Some(filename) => options.output_filename matches Some(name) && name@
                    == output_filename_of(filename@),
                None => options.output_filename is None,
            },
            options.compression_level == match matches.compression_level {
                Some(level) => level,
                None => DEFAULT_COMPRESSION_LEVEL,
            },
            options.force_overwrite == matches.force,
    {
        let level = match matches.compression_level {
            Some(level) => level,
            None => DEFAULT_COMPRESSION_LEVEL,
        };
        let (compression_type, output_filename) = match &matches.output {
            Some(filename) => {
                // File output: default to gzip unless --no-gzip is specified
                let compression = if matches.no_gzip {
                    CompressionType::Uncompressed
                } else {
                    CompressionType::Gzip
                };
                (compression, Some(Self::process_output_filename(filename.as_str())))
            },
            None => {
                // Stdout: default to no compression unless --gzip is specified
                let compression = if matches.gzip {
                    CompressionType::Gzip
                } else {
                    CompressionType::Uncompressed
                };
                (compression, None)
            },
        };
        Options {
            apparent_size: matches.apparent_size,
            cross_mount_points: matches.mounts,
            include_zero_files: matches.zero_files,
            include_empty_folders: matches.empty_folders,
            compression_type,
            output_filename,
            compression_level: level,
            force_overwrite: matches.force,
        }
    }

    /// Process output filename to add .gpscan extension if needed.
    /// - Works on the file name component only
    /// - Keeps directory part intact
    /// - If path looks like a directory (no file name), returns unchanged
    /// - Trims trailing dots in file name (e.g., "foo." -> "foo.gpscan")
    pub fn process_output_filename(filename: &str) -> (name: String)
        ensures
            name@ == output_filename_of(filename@),
    {
        let chars = to_chars(filename);
        let n = chars.len();
        // If the raw string ends with a path separator, treat it as directory-like
        if n > 0 && (chars[n - 1] == '/' || chars[n - 1] == '\\') {
            return filename.to_owned();
        }
        // If there's no file name component (e.g., root), return as-is

        let (start, end) = match find_file_name(&chars) {
            Some(range) => range,
            None => {
                return filename.to_owned();
            },
        };
        // If already ends with .gpscan, return as-is
        if ends_with_dump_extension(&chars, start, end) {
            return filename.to_owned();
        }
        // Trim trailing dots to avoid "foo..gpscan"

        let ghost name = chars@.subrange(start as int, end as int);
        let mut stem_end: usize = end;
        while stem_end > start && chars[stem_end - 1] == '.'
            invariant
                start <= stem_end <= end <= chars.len(),
                without_trailing_dots(name) == without_trailing_dots(
                    chars@.subrange(start as int, stem_end as int),
                ),
            decreases stem_end,
        {
            proof {
                assert(chars@.subrange(start as int, stem_end as int).drop_last()
                    =~= chars@.subrange(start as int, stem_end - 1));
            }
            stem_end -= 1;
        }
        // If trimming removed everything, keep the name as it is
        if stem_end == start {
            return filename.to_owned();
        }
        proof {
            assert(chars@.subrange(start as int, stem_end as int).last() == chars[stem_end - 1]);
        }
        // Rebuild path with the same parent

        let directory_end = parent_end(&chars, start);
        let mut result = substring(&chars, 0, directory_end);
        if directory_end > 0 && chars[directory_end - 1] != '/' {
            result.append("/");
        }
        let stem = substring(&chars, start, stem_end);
        result.append(stem.as_str());
        result.append(".gpscan");
        proof {
            reveal_strlit(".gpscan");
            reveal_strlit("/");
            assert(".gpscan"@ =~= dump_extension());
            assert("/"@ =~= seq!['/']);
            assert(chars@.subrange(0, directory_end as int) =~= parent(chars@));
            let directory = parent(chars@);
            let file = without_trailing_dots(name) + dump_extension();
            if directory.len() > 0 {
                assert(directory.last() == chars[directory_end - 1]);
            }
            assert(result@ =~= joined(directory, file));
        }
        result
    }

    /// Create Options with default values for testing
    pub fn default() -> (options: Options)
        ensures
            !options.apparent_size,
            !options.cross_mount_points,
            !options.include_zero_files,
            !options.include_empty_folders,
            options.compression_type == CompressionType::Uncompressed,
            options.output_filename is None,
            options.compression_level == DEFAULT_COMPRESSION_LEVEL,
            !options.force_overwrite,
    {
        Options {
            apparent_size: false,
            cross_mount_points: false,
            include_zero_files: false,
            include_empty_folders: false,
            compression_type: CompressionType::Uncompressed,
            output_filename: None,
            compression_level: DEFAULT_COMPRESSION_LEVEL,
            force_overwrite: false,
        }
    }
}

} // verus!
