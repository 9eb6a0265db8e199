//! The decisions of the ingestion pipeline.
//!
//! The program that drives the library owns the watch on the directory and
//! the connection to the broker. For every notification it asks
//! [`handle_notify_event_result`] what to do, reads the files it is told to
//! read, and hands what it read to [`import_file_and_send_over_mqtt`], which
//! answers with the messages to send. A file that cannot be read or decoded is
//! reported and passed over; it never stops the run.

use vstd::prelude::*;

use crate::event::ChangeEvent;
use crate::models::{Person, PersonModel};
use crate::mqtt_logic::{
    publication_of, publish_person, Publication, PublicationModel, PublishError,
};
use crate::notify_logic::{
    content_of, csv_paths, get_csv_paths_from_notify_event, is_event_move_into_or_write,
    read_vector_of_persons, records_of, signals_ready, FileAccessError, ReadError,
};

verus! {

/// Takes the value out of a result of the start-up, and leaves the failure to
/// `exit_function`, which is expected to end the program.
///
/// Whatever `exit_function` hands back stands in for the missing value.
pub fn unwrap_or_exit<T, E, F: FnOnce(E) -> T>(result: Result<T, E>, exit_function: F) -> (value:
    T)
    requires
        result matches Err(error) ==> exit_function.requires((error,)),
    ensures
        match result {
            Ok(expected) => value == expected,
            Err(error) => exit_function.ensures((error,), value),
        },
{
    match result {
        Err(error) => exit_function(error),
        Ok(value) => value,
    }
}

/// What is to be done about a notification.
#[derive(Debug, PartialEq, Eq)]
pub enum Dispatch<E> {
    /// The watch source failed: the error is reported and nothing is read.
    Report(E),
    /// The notification does not announce a finished file.
    Ignore,
    /// These files are to be read and imported, in this order.
    Import(Vec<String>),
}

/// Decides what is to be done about what the watch source delivered.
///
/// An error of the source is handed back for reporting. A notification is
/// ignored unless its kind says that a file is complete; then its candidate
/// files are to be imported, in the order in which the notification lists
/// them. Two notifications for one file import it twice.
pub fn handle_notify_event_result<E>(event_result: Result<ChangeEvent, E>) -> (dispatch: Dispatch<
    E,
>)
    ensures
        match event_result {
            Err(error) => dispatch == Dispatch::Report(error),
            Ok(event) => if signals_ready(event.kind) {
                dispatch matches Dispatch::Import(paths) && paths.deep_view() == csv_paths(
                    event.paths.deep_view(),
                )
            } else {
                dispatch == Dispatch::<E>::Ignore
            },
        },
{
    match event_result {
        Err(error) => Dispatch::Report(error),
        Ok(event) => {
            if is_event_move_into_or_write(event.kind) {
                Dispatch::Import(get_csv_paths_from_notify_event(&event))
            } else {
                Dispatch::Ignore
            }
        },
    }
}

/// Why a candidate file gave no messages.
#[derive(Debug, Clone, Copy, PartialEq, Eq)]
pub enum IngestError {
    /// The file could not be read or decoded.
    Read(ReadError),
    /// The record of this place in the file, counted from zero, gave no
    /// message.
    Publish { record: usize, cause: PublishError },
}

impl IngestError {
    /// Whether the error is one that ends the run.
    pub open spec fn fatal(self) -> bool {
        self is Publish
    }

    /// Tells whether the error ends the run: a record that cannot be
    /// published does, a file that cannot be read or decoded does not.
    pub fn is_fatal(&self) -> (fatal: bool)
        ensures
            fatal == self.fatal(),
    {
        match self {
            IngestError::Read(_) => false,
            IngestError::Publish { .. } => true,
        }
    }
}

/// The messages for the records of a file, in the order of the records, or
/// the error of the first record that has none.
pub open spec fn publications_of(persons: Seq<PersonModel>) -> Result<
    Seq<PublicationModel>,
    IngestError,
>
    decreases persons.len(),
{
    if persons.len() == 0 {
        Ok(Seq::empty())
    } else {
        match publications_of(persons.drop_last()) {
            Err(error) => Err(error),
            Ok(publications) => match publication_of(persons.last()) {
                Ok(publication) => Ok(publications.push(publication)),
                Err(cause) => Err(
                    IngestError::Publish { record: (persons.len() - 1) as usize, cause },
                ),
            },
        }
    }
}

/// The messages for a candidate file, from what reading it gave.
pub open spec fn import_of(read: Result<Seq<u8>, FileAccessError>) -> Result<
    Seq<PublicationModel>,
    IngestError,
> {
    match records_of(read) {
        Err(error) => Err(IngestError::Read(error)),
        Ok(persons) => publications_of(persons),
    }
}

/// The outcome for every file of a batch. Each depends on its own file alone.
pub open spec fn imports_of(reads: Seq<Result<Seq<u8>, FileAccessError>>) -> Seq<
    Result<Seq<PublicationModel>, IngestError>,
> {
    Seq::new(reads.len(), |i: int| import_of(reads[i]))
}

/// The mathematical value of the outcome for a file.
pub open spec fn import_outcome(outcome: Result<Vec<Publication>, IngestError>) -> Result<
    Seq<PublicationModel>,
    IngestError,
> {
    match outcome {
        Ok(publications) => Ok(publications.deep_view()),
        Err(error) => Err(error),
    }
}

/// The mathematical value of what reading the files of a batch gave.
pub open spec fn contents_of(reads: Seq<Result<Vec<u8>, FileAccessError>>) -> Seq<
    Result<Seq<u8>, FileAccessError>,
> {
    Seq::new(reads.len(), |i: int| content_of(reads[i]))
}

/// The mathematical value of the outcomes for the files of a batch.
pub open spec fn import_outcomes(outcomes: Seq<Result<Vec<Publication>, IngestError>>) -> Seq<
    Result<Seq<PublicationModel>, IngestError>,
> {
    Seq::new(outcomes.len(), |i: int| import_outcome(outcomes[i]))
}

/// A record without a message stays the error of the file, however many
/// records follow.
proof fn lemma_publish_error_persists(persons: Seq<PersonModel>, m: int)
    requires
        0 <= m <= persons.len(),
        publications_of(persons.take(m)) is Err,
    ensures
        publications_of(persons) == publications_of(persons.take(m)),
    decreases persons.len() - m,
{
    if m < persons.len() {
        assert(persons.drop_last().take(m) =~= persons.take(m));
        lemma_publish_error_persists(persons.drop_last(), m);
    } else {
        assert(persons.take(m) =~= persons);
    }
}

/// Builds the messages for the records of a file, in the order of the
/// records. Where a record has no message, none is handed out for the file.
pub fn publish_all(persons: &Vec<Person>) -> (outcome: Result<Vec<Publication>, IngestError>)
    ensures
        import_outcome(outcome) == publications_of(persons.deep_view()),
{
    let ghost all = persons.deep_view();
    let mut publications: Vec<Publication> = Vec::new();
    let mut i: usize = 0;
    proof {
        assert(all.take(0) =~= Seq::empty());
        assert(publications.deep_view() =~= Seq::empty());
    }
    while i < persons.len()
        invariant
            i <= persons.len(),
            all == persons.deep_view(),
            publications_of(all.take(i as int)) == Ok::<Seq<PublicationModel>, IngestError>(
                publications.deep_view(),
            ),
        decreases persons.len() - i,
    {
        let ghost before = publications.deep_view();
        proof {
            assert(all.take(i + 1).drop_last() =~= all.take(i as int));
            assert(all.take(i + 1).last() == persons[i as int]@);
        }
        match publish_person(&persons[i]) {
            Ok(publication) => {
                publications.push(publication);
                proof {
                    assert(publications.deep_view() =~= before.push(publication@));
                }
            },
            Err(cause) => {
                proof {
                    assert(publications_of(all.take(i + 1)) == Err::<
                        Seq<PublicationModel>,
                        IngestError,
                    >(IngestError::Publish { record: i, cause }));
                    lemma_publish_error_persists(all, i + 1);
                }
                return Err(IngestError::Publish { record: i, cause });
            },
        }
        i += 1;
    }
    proof {
        assert(all.take(i as int) =~= all);
    }
    Ok(publications)
}

/// Turns what reading one candidate file gave into the messages to send, one
/// for each record, in file order.
pub fn import_file(read: &Result<Vec<u8>, FileAccessError>) -> (outcome: Result<
    Vec<Publication>,
    IngestError,
>)
    ensures
        import_outcome(outcome) == import_of(content_of(*read)),
{
    match read_vector_of_persons(read) {
        Err(error) => Err(IngestError::Read(error)),
        Ok(persons) => publish_all(&persons),
    }
}

/// Turns what reading the candidate files of a notification gave into the
/// messages to send.
///
/// `reads` holds, in the order of the notification, the content of each
/// candidate file or the reason why it could not be read. The answer has one
/// outcome for each file, in the same order: its messages, or its error.
pub fn import_file_and_send_over_mqtt(reads: &Vec<Result<Vec<u8>, FileAccessError>>) -> (outcomes:
    Vec<Result<Vec<Publication>, IngestError>>)
    ensures
        import_outcomes(outcomes@) == imports_of(contents_of(reads@)),
{
    let mut outcomes: Vec<Result<Vec<Publication>, IngestError>> = Vec::new();
    let mut i: usize = 0;
    while i < reads.len()
        invariant
            i <= reads.len(),
            outcomes.len() == i,
            forall|k: int|
                0 <= k < i ==> import_outcome(#[trigger] outcomes[k]) == import_of(
                    content_of(reads[k]),
                ),
        decreases reads.len() - i,
    {
        let outcome = import_file(&reads[i]);
        outcomes.push(outcome);
        i += 1;
    }
    proof {
        assert(import_outcomes(outcomes@) =~= imports_of(contents_of(reads@)));
    }
    outcomes
}

/// A file that cannot be read or decoded does not touch the files around it:
/// the outcomes of the other files of a batch are what they would be had the
/// failing file never been part of it.
pub proof fn lemma_failure_is_isolated(reads: Seq<Result<Seq<u8>, FileAccessError>>, failing: int)
    requires
        0 <= failing < reads.len(),
        import_of(reads[failing]) is Err,
    ensures
        imports_of(reads.remove(failing)) == imports_of(reads).remove(failing),
        forall|other: int|
            0 <= other < reads.len() && other != failing ==> #[trigger] imports_of(reads)[other]
                == import_of(reads[other]),
{
    assert(imports_of(reads.remove(failing)) =~= imports_of(reads).remove(failing));
}

} // verus!
