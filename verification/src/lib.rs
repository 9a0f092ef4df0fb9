//! The logic of a handful of small command-line tools, with
//! machine-checked contracts.
//!
//! The larger part is a byte-exact file-equality engine: it admits
//! regular files, plans how many workers a comparison is worth, splits
//! the reference file into contiguous byte ranges, scans each range of
//! two files in lockstep and reduces the outcomes to one verdict. What
//! touches the file system, and the threads, are left to the caller; the
//! same engine runs here over files held in memory.
//!
//! Beside it stand transliteration between Latin and Cyrillic script,
//! Unicode normalization, ligature substitution, ISBN check digits, the
//! choice of a directory listing that fits the screen, and paths written
//! backwards.

pub mod admission;
pub mod isbn;
pub mod iso9;
pub mod ligature;
pub mod listing;
pub mod multi;
pub mod normalize;
pub mod pair;
pub mod path;
pub mod plan;
pub mod scan;
pub mod tally;
pub mod text;
pub mod verdict;
