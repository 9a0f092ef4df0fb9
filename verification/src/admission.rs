//! Admission of files to a comparison: only regular files take part, and
//! a failed look-up is turned into the error that the run ends with.

use vstd::prelude::*;
use vstd::std_specs::convert::FromSpecImpl;

verus! {

/// What kind of file a path leads to.
#[derive(Clone, Copy, Debug, PartialEq, Eq, Structural)]
pub enum FileKind {
    RegularFile,
    Directory,
    SymbolicLink,
    Unknown,
}

impl FileKind {
    /// The words that name each kind in messages.
    pub open spec fn spec_describe(self) -> Seq<char> {
        match self {
            FileKind::Directory => "directory"@,
            FileKind::RegularFile => "regular file"@,
            FileKind::SymbolicLink => "symbolic link"@,
            FileKind::Unknown => "unknown"@,
        }
    }

    /// Names the kind for a message.
    pub fn describe(&self) -> (name: String)
        ensures
            name@ == self.spec_describe(),
    {
        match self {
            FileKind::Directory => "directory".to_owned(),
            FileKind::RegularFile => "regular file".to_owned(),
            FileKind::SymbolicLink => "symbolic link".to_owned(),
            FileKind::Unknown => "unknown".to_owned(),
        }
    }
}

/// What is known of a file once it is admitted; taken once, never changed.
#[derive(Clone, Copy, Debug, PartialEq, Eq, Structural)]
pub struct FileStat {
    pub kind: FileKind,
    pub length: u64,
}

/// The class of a failed file-system operation, as far as the engine
/// tells failures apart.
#[derive(Clone, Copy, Debug, PartialEq, Eq, Structural)]
pub enum IoKind {
    NotFound,
    PermissionDenied,
    Other,
}

/// A failed file-system operation: its class and the system's message.
#[derive(Clone, Debug, PartialEq, Eq)]
pub struct IoCause {
    pub kind: IoKind,
    pub detail: String,
}

impl IoCause {
    /// A copy of the failure.
    pub fn duplicate(&self) -> (copy: IoCause)
        ensures
            copy == *self,
    {
        IoCause { kind: self.kind, detail: self.detail.clone() }
    }
}

/// What looking up a path reported.
#[derive(Clone, Debug, PartialEq, Eq)]
pub enum Probe {
    Found { kind: FileKind, length: u64 },
    Failed { cause: IoCause },
}

/// Why a run ended without a verdict. Paths are named by their position
/// in the caller's list.
#[derive(Clone, Debug, PartialEq, Eq)]
pub enum Error {
    /// Fewer than two paths were given.
    TooFewPaths { count: usize },
    /// The path does not exist.
    NotFound { path: usize },
    /// The path may not be read.
    AccessDenied { path: usize, cause: IoCause },
    /// The path leads to something other than a regular file.
    UnsupportedType { path: usize, kind: FileKind },
    /// Reading or seeking failed in the middle of a comparison.
    Io { cause: IoCause },
}

impl Error {
    /// The error that a failure on `path` is reported as.
    pub open spec fn of_failure(cause: IoCause, path: usize) -> Error {
        match cause.kind {
            IoKind::NotFound => Error::NotFound { path },
            IoKind::PermissionDenied => Error::AccessDenied { path, cause },
            IoKind::Other => Error::Io { cause },
        }
    }
}

impl From<(IoCause, usize)> for Error {
    fn from(failure: (IoCause, usize)) -> (error: Error) {
        let (cause, path) = failure;
        match cause.kind {
            IoKind::NotFound => Error::NotFound { path },
            IoKind::PermissionDenied => Error::AccessDenied { path, cause },
            IoKind::Other => Error::Io { cause },
        }
    }
}

impl FromSpecImpl<(IoCause, usize)> for Error {
    open spec fn obeys_from_spec() -> bool {
        true
    }

    open spec fn from_spec(failure: (IoCause, usize)) -> Error {
        Error::of_failure(failure.0, failure.1)
    }
}

/// What admitting `path` yields for each thing its look-up may report.
pub open spec fn admission(path: usize, probe: Probe) -> Result<FileStat, Error> {
    match probe {
        Probe::Failed { cause } => Err(Error::of_failure(cause, path)),
        Probe::Found { kind, length } => if kind == FileKind::RegularFile {
            Ok(FileStat { kind, length })
        } else {
            Err(Error::UnsupportedType { path, kind })
        },
    }
}

/// Admits the file at position `path` from what its look-up reported:
/// a regular file yields its kind and length, anything else the error
/// that ends the run.
pub fn admit_file(path: usize, probe: Probe) -> (admitted: Result<FileStat, Error>)
    ensures
        admitted == admission(path, probe),
{
    match probe {
        Probe::Failed { cause } => Err(Error::from((cause, path))),
        Probe::Found { kind, length } => match kind {
            FileKind::RegularFile => Ok(FileStat { kind, length }),
            _ => Err(Error::UnsupportedType { path, kind }),
        },
    }
}

/// A comparison needs a reference and at least one other file.
pub fn check_path_count(count: usize) -> (checked: Result<(), Error>)
    ensures
        checked == if count >= 2 {
            Ok::<(), Error>(())
        } else {
            Err::<(), Error>(Error::TooFewPaths { count })
        },
{
    if count >= 2 {
        Ok(())
    } else {
        Err(Error::TooFewPaths { count })
    }
}

} // verus!
