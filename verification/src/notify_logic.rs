//! From a change notification to the files that are ready to be read.

use vstd::prelude::*;

use crate::decode::{
    decode_file, decoded, persons_outcome, read_header, read_rows, DecodeError,
};
use crate::event::{AccessKind, AccessMode, ChangeEvent, EventKind, ModifyKind, RenameMode};
use crate::models::{Person, PersonModel};

verus! {

/// Whether a notification of this kind says that a file is complete: it was
/// moved into the watched tree, or a writer closed it.
///
/// Every other kind is ignored. A plain modification is reported several times
/// while a file is being written, and may arrive before the writer has
/// finished.
pub open spec fn signals_ready(kind: EventKind) -> bool {
    kind == EventKind::Modify(ModifyKind::Name(RenameMode::To)) || kind == EventKind::Access(
        AccessKind::Close(AccessMode::Write),
    )
}

/// Decides whether a notification of the given kind announces a file that can
/// be read.
pub fn is_event_move_into_or_write(event_kind: EventKind) -> (ready: bool)
    ensures
        ready == signals_ready(event_kind),
{
    match event_kind {
        EventKind::Modify(ModifyKind::Name(RenameMode::To)) => true,
        EventKind::Access(AccessKind::Close(AccessMode::Write)) => true,
        _ => false,
    }
}

/// The extension of a path, without its dot, as `std::path::Path::extension`
/// finds it under the path syntax of the platform the library is built for.
pub uninterp spec fn extension_of(path: Seq<char>) -> Option<Seq<char>>;

/// Calls `std::path::Path::extension` on the path made of this text and
/// hands back the extension as text.
///
/// Nothing is proved of how the extension is found; the contract only gives
/// the result its name.
#[verifier::external_body]
fn path_extension(path: &str) -> (extension: Option<String>)
    ensures
        extension.deep_view() == extension_of(path@),
{
    std::path::Path::new(path).extension().map(|e| e.to_string_lossy().into_owned())
}

/// The extension that marks an input file.
pub open spec fn csv_extension() -> Seq<char> {
    seq!['c', 's', 'v']
}

/// Whether a path names an input file: its extension is exactly `csv`, in
/// lower case.
pub open spec fn is_csv_path(path: Seq<char>) -> bool {
    extension_of(path) == Some(csv_extension())
}

/// Decides whether an extension, as found on a path, is that of an input file.
pub fn is_csv_extension(extension: &Option<String>) -> (matches: bool)
    ensures
        matches == (extension.deep_view() == Some(csv_extension())),
{
    match extension {
        None => false,
        Some(ext) => {
            let expected = "csv";
            proof {
                reveal_strlit("csv");
                assert(expected@ =~= csv_extension());
            }
            same_text(ext.as_str(), expected)
        },
    }
}

/// Compares two texts.
fn same_text(a: &str, b: &str) -> (same: bool)
    ensures
        same == (a@ == b@),
{
    let left = a.to_owned();
    let right = b.to_owned();
    left == right
}

/// The candidate files of a notification: those of its paths that name an
/// input file, in the order of the notification.
pub open spec fn csv_paths(paths: Seq<Seq<char>>) -> Seq<Seq<char>> {
    paths.filter(|path: Seq<char>| is_csv_path(path))
}

/// Picks the candidate files out of a notification.
///
/// No path is added, changed or reordered, and a path that occurs twice is
/// kept twice.
pub fn get_csv_paths_from_notify_event(event: &ChangeEvent) -> (candidates: Vec<String>)
    ensures
        candidates.deep_view() == csv_paths(event.paths.deep_view()),
{
    let ghost all = event.paths.deep_view();
    let ghost keep = |path: Seq<char>| is_csv_path(path);
    let mut candidates: Vec<String> = Vec::new();
    let mut i: usize = 0;
    proof {
        assert(all.take(0) =~= Seq::empty());
        assert(candidates.deep_view() =~= Seq::empty());
    }
    while i < event.paths.len()
        invariant
            i <= event.paths.len(),
            all == event.paths.deep_view(),
            keep == |path: Seq<char>| is_csv_path(path),
            candidates.deep_view() == all.take(i as int).filter(keep),
        decreases event.paths.len() - i,
    {
        let path = &event.paths[i];
        let ghost before = candidates.deep_view();
        proof {
            reveal(Seq::filter);
            assert(all.take(i + 1).drop_last() =~= all.take(i as int));
            assert(all.take(i + 1).last() == path@);
        }
        let extension = path_extension(path.as_str());
        if is_csv_extension(&extension) {
            candidates.push(path.clone());
            proof {
                assert(candidates.deep_view() =~= before.push(path@));
            }
        }
        i += 1;
    }
    proof {
        assert(all.take(i as int) =~= all);
    }
    candidates
}

/// Decodes the content of an input file into its records.
///
/// The first row is taken as the header and gives no record. Returns the
/// records of all data rows in file order, and the error of the first row
/// that is wrong where there is one. A file that ends after its header, and
/// an empty file, have no records and no error.
pub fn read_vector_of_persons_from_reader(bytes: &[u8]) -> (outcome: Result<
    Vec<Person>,
    DecodeError,
>)
    ensures
        persons_outcome(outcome) == decoded(bytes@),
{
    let header = read_header(bytes);
    let rows = read_rows(bytes);
    decode_file(&header, &rows)
}

/// Why a file could not be read at all.
#[derive(Debug, Clone, Copy, PartialEq, Eq)]
pub enum FileAccessError {
    NotFound,
    PermissionDenied,
    Other,
}

/// Why a candidate file gave no records.
#[derive(Debug, Clone, Copy, PartialEq, Eq)]
pub enum ReadError {
    /// The file could not be read.
    Access(FileAccessError),
    /// The content of the file is wrong.
    Decode(DecodeError),
}

/// The mathematical value of what reading a file gave: its content, or why
/// there is none.
pub open spec fn content_of(read: Result<Vec<u8>, FileAccessError>) -> Result<
    Seq<u8>,
    FileAccessError,
> {
    match read {
        Ok(bytes) => Ok(bytes@),
        Err(error) => Err(error),
    }
}

/// The records of a candidate file, from what reading it gave.
pub open spec fn records_of(read: Result<Seq<u8>, FileAccessError>) -> Result<
    Seq<PersonModel>,
    ReadError,
> {
    match read {
        Err(error) => Err(ReadError::Access(error)),
        Ok(bytes) => match decoded(bytes) {
            Ok(persons) => Ok(persons),
            Err(error) => Err(ReadError::Decode(error)),
        },
    }
}

/// The mathematical value of the records read from a file.
pub open spec fn records_outcome(outcome: Result<Vec<Person>, ReadError>) -> Result<
    Seq<PersonModel>,
    ReadError,
> {
    match outcome {
        Ok(persons) => Ok(persons.deep_view()),
        Err(error) => Err(error),
    }
}

/// Turns what reading a candidate file gave into its records.
///
/// A file that could not be read gives the reason back; the content of one
/// that could is decoded.
pub fn read_vector_of_persons(read: &Result<Vec<u8>, FileAccessError>) -> (outcome: Result<
    Vec<Person>,
    ReadError,
>)
    ensures
        records_outcome(outcome) == records_of(content_of(*read)),
{
    match read {
        Err(error) => Err(ReadError::Access(*error)),
        Ok(bytes) => match read_vector_of_persons_from_reader(bytes.as_slice()) {
            Ok(persons) => Ok(persons),
            Err(error) => Err(ReadError::Decode(error)),
        },
    }
}

} // verus!
