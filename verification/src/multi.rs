//! Comparing a reference file with every other file of a list, in order.

use crate::admission::{admission, admit_file, check_path_count, Error, FileKind, IoCause, Probe};
use crate::pair::{
    exact_verdict, first_difference, first_difference_from, lemma_first_difference_skips_same,
    Comparer,
};
use crate::plan::ComparisonConfig;
use crate::verdict::Verdict;
use vstd::prelude::*;

verus! {

/// A path as the engine meets it, held in memory: either something was
/// found there, of some kind and with some bytes, or the look-up failed.
#[derive(Clone, Debug, PartialEq, Eq)]
pub enum FileEntry {
    Found { kind: FileKind, contents: Vec<u8> },
    Failed { cause: IoCause },
}

impl FileEntry {
    /// What a look-up of this path reports.
    pub open spec fn spec_probe(self) -> Probe {
        match self {
            FileEntry::Found { kind, contents } => Probe::Found {
                kind,
                length: contents@.len() as u64,
            },
            FileEntry::Failed { cause } => Probe::Failed { cause },
        }
    }

    /// The bytes found at this path; none where the look-up failed.
    pub open spec fn contents(self) -> Seq<u8> {
        match self {
            FileEntry::Found { kind, contents } => contents@,
            FileEntry::Failed { cause } => Seq::empty(),
        }
    }

    /// A regular file with the given bytes.
    pub fn regular(contents: Vec<u8>) -> (entry: FileEntry)
        ensures
            entry == (FileEntry::Found { kind: FileKind::RegularFile, contents }),
    {
        FileEntry::Found { kind: FileKind::RegularFile, contents }
    }
}

/// The error of the first path at or after position `from` that is not
/// admitted, if there is one.
pub open spec fn first_rejection_from(entries: Seq<FileEntry>, from: int) -> Option<Error>
    decreases entries.len() - from,
{
    if from < 0 || from >= entries.len() {
        None
    } else {
        match admission(from as usize, entries[from].spec_probe()) {
            Err(error) => Some(error),
            Ok(_) => first_rejection_from(entries, from + 1),
        }
    }
}

/// The verdicts of the reference, the first file, against each other
/// file, in the order of the list.
pub open spec fn pair_verdicts(entries: Seq<FileEntry>) -> Seq<Verdict> {
    Seq::new(
        (entries.len() - 1) as nat,
        |i: int|
            exact_verdict(0, entries[0].contents(), (i + 1) as usize, entries[i + 1].contents()),
    )
}

/// The result of comparing all files of a list. Fewer than two paths are
/// refused. A path that is not admitted ends the run with its error,
/// before any pair is compared. Otherwise the result is the verdict of
/// the first pair that differs, and `Same` if none does. Neither the
/// buffer size nor the number of workers has any part in it.
pub open spec fn all_verdict(entries: Seq<FileEntry>) -> Result<Verdict, Error> {
    if entries.len() < 2 {
        Err(Error::TooFewPaths { count: entries.len() as usize })
    } else {
        match first_rejection_from(entries, 0) {
            Some(error) => Err(error),
            None => Ok(first_difference(pair_verdicts(entries))),
        }
    }
}

/// Admits the path at position `path` and hands out its bytes.
fn admit_entry<'a>(path: usize, entry: &'a FileEntry) -> (admitted: Result<&'a Vec<u8>, Error>)
    ensures
        match admission(path, entry.spec_probe()) {
            Ok(stat) => admitted matches Ok(contents) && contents@ == entry.contents(),
            Err(error) => admitted == Err::<&Vec<u8>, Error>(error),
        },
{
    match entry {
        FileEntry::Failed { cause } => Err(Error::from((cause.duplicate(), path))),
        FileEntry::Found { kind, contents } => {
            let probe = Probe::Found { kind: *kind, length: contents.len() as u64 };
            match admit_file(path, probe) {
                Ok(_) => Ok(contents),
                Err(error) => Err(error),
            }
        },
    }
}

/// Compares the first file of `entries` with each of the others, in
/// order, and stops at the first that differs.
pub fn compare_all(entries: &Vec<FileEntry>, config: &ComparisonConfig) -> (result: Result<
    Verdict,
    Error,
>)
    requires
        config.valid(),
    ensures
        result == all_verdict(entries@),
{
    match check_path_count(entries.len()) {
        Err(error) => {
            return Err(error);
        },
        Ok(_) => {},
    }
    let mut files: Vec<&Vec<u8>> = Vec::new();
    let mut i: usize = 0;
    while i < entries.len()
        invariant
            entries.len() >= 2,
            i <= entries.len(),
            files.len() == i,
            forall|k: int| 0 <= k < i ==> (#[trigger] files[k])@ == entries[k].contents(),
            first_rejection_from(entries@, 0) == first_rejection_from(entries@, i as int),
        decreases entries.len() - i,
    {
        match admit_entry(i, &entries[i]) {
            Err(error) => {
                return Err(error);
            },
            Ok(contents) => {
                files.push(contents);
            },
        }
        i = i + 1;
    }
    let reference: &Vec<u8> = files[0];
    let comparer = Comparer::new(0, reference.len() as u64, config);
    let ghost verdicts = pair_verdicts(entries@);
    let mut other: usize = 1;
    while other < files.len()
        invariant
            comparer.valid(),
            comparer.to == 0,
            comparer.to_len == reference@.len(),
            files.len() == entries.len(),
            entries.len() >= 2,
            first_rejection_from(entries@, 0).is_none(),
            reference == files[0],
            forall|k: int| 0 <= k < files.len() ==> (#[trigger] files[k])@ == entries[k].contents(),
            verdicts == pair_verdicts(entries@),
            1 <= other <= files.len(),
            forall|k: int| 0 <= k < other - 1 ==> verdicts[k] == Verdict::Same,
        decreases files.len() - other,
    {
        let verdict = comparer.compare(reference.as_slice(), other, files[other].as_slice());
        assert(verdict == verdicts[other - 1]);
        if !verdict.is_same() {
            proof {
                lemma_first_difference_skips_same(verdicts, 0, other - 1);
            }
            return Ok(verdict);
        }
        other = other + 1;
    }
    proof {
        lemma_first_difference_skips_same(verdicts, 0, verdicts.len() as int);
    }
    Ok(Verdict::Same)
}

/// Where every path is admitted and every file holds the bytes of the
/// first, the result is `Same`.
pub proof fn lemma_identical_files_are_same(entries: Seq<FileEntry>)
    requires
        entries.len() >= 2,
        first_rejection_from(entries, 0).is_none(),
        forall|k: int|
            0 <= k < entries.len() ==> (#[trigger] entries[k]).contents() == entries[0].contents(),
    ensures
        all_verdict(entries) == Ok::<Verdict, Error>(Verdict::Same),
{
    let verdicts = pair_verdicts(entries);
    assert forall|k: int| 0 <= k < verdicts.len() implies verdicts[k] == Verdict::Same by {
        assert(entries[k + 1].contents() == entries[0].contents());
    }
    lemma_first_difference_skips_same(verdicts, 0, verdicts.len() as int);
}

/// Where every path is admitted, the result names the first file that
/// does not hold the bytes of the reference: by its two lengths if they
/// differ, as a difference in contents otherwise. It is never `Same`.
pub proof fn lemma_first_unequal_file_is_reported(entries: Seq<FileEntry>, other: int)
    requires
        first_rejection_from(entries, 0).is_none(),
        1 <= other < entries.len(),
        forall|k: int|
            1 <= k < other ==> (#[trigger] entries[k]).contents() == entries[0].contents(),
        entries[other].contents() != entries[0].contents(),
    ensures
        all_verdict(entries) == Ok::<Verdict, Error>(
            exact_verdict(0, entries[0].contents(), other as usize, entries[other].contents()),
        ),
        all_verdict(entries) != Ok::<Verdict, Error>(Verdict::Same),
{
    let verdicts = pair_verdicts(entries);
    assert forall|k: int| 0 <= k < other - 1 implies verdicts[k] == Verdict::Same by {
        assert(entries[k + 1].contents() == entries[0].contents());
    }
    lemma_first_difference_skips_same(verdicts, 0, other - 1);
    assert(verdicts[other - 1] != Verdict::Same);
    assert(first_difference_from(verdicts, other - 1) == verdicts[other - 1]);
}

} // verus!
