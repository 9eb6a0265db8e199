//! From the rows of an input file to records.
//!
//! The first row of a file is its header. A data row is read against it
//! column by column, from left to right: a column labelled `Id`, `Name` or
//! `Age` gives the record's field of that name, every other column is passed
//! over. Labels are compared byte for byte. The first thing that is wrong with
//! a row decides its error, and the first row that is wrong decides the
//! file's: no record of a file is handed out unless all of its rows are good.

use vstd::prelude::*;

use crate::models::{Person, PersonModel};
use crate::number::{field_number, field_value, parse_number};

verus! {

/// A column that a record is read from.
#[derive(Debug, Clone, Copy, PartialEq, Eq)]
pub enum Column {
    Id,
    Name,
    Age,
}

/// What is wrong with a data row.
#[derive(Debug, Clone, Copy, PartialEq, Eq)]
pub enum RowError {
    /// The row could not be split into text fields that match the header: it
    /// has another number of fields, or a field is not UTF-8.
    Unreadable,
    /// The label of this column stands in the header a second time.
    Duplicate(Column),
    /// The row ends before a column of the header.
    EndOfRow,
    /// The field of this column is not written as a number, or the number is
    /// too large for the column.
    Invalid(Column),
    /// The header has no column of this label.
    Missing(Column),
}

/// Why a file gave no records.
#[derive(Debug, Clone, Copy, PartialEq, Eq)]
pub enum DecodeError {
    /// The header could not be read.
    Header,
    /// A data row is wrong. Rows are counted from zero, without the header.
    Row { row: usize, cause: RowError },
}

/// The label of a column in the header of an input file: `Id`, `Name`, `Age`.
pub open spec fn label_of(column: Column) -> Seq<u8> {
    match column {
        Column::Id => seq![0x49u8, 0x64u8],
        Column::Name => seq![0x4eu8, 0x61u8, 0x6du8, 0x65u8],
        Column::Age => seq![0x41u8, 0x67u8, 0x65u8],
    }
}

/// The column that a header label names, if any.
#[verifier::opaque]
pub open spec fn column_of(label: Seq<u8>) -> Option<Column> {
    if label == label_of(Column::Id) {
        Some(Column::Id)
    } else if label == label_of(Column::Name) {
        Some(Column::Name)
    } else if label == label_of(Column::Age) {
        Some(Column::Age)
    } else {
        None
    }
}

/// The largest number that a column accepts. `Name` is no numeric column.
pub open spec fn limit_of(column: Column) -> u64 {
    match column {
        Column::Id => u64::MAX,
        Column::Name => 0,
        Column::Age => 255,
    }
}

/// The number that a text field denotes in a column with the given limit.
pub open spec fn numeric_field(field: Seq<char>, max: u64) -> Option<u64> {
    field_number(vstd::utf8::encode_utf8(field), max)
}

/// Whether the label of column `j` already stands in an earlier column.
pub open spec fn repeats(header: Seq<Seq<u8>>, j: int) -> bool {
    exists|k: int| 0 <= k < j && column_of(#[trigger] header[k]) == column_of(header[j])
}

/// What is wrong with a row at column `j` of the header, if anything.
pub open spec fn column_fault(header: Seq<Seq<u8>>, fields: Seq<Seq<char>>, j: int) -> Option<
    RowError,
> {
    match column_of(header[j]) {
        Some(column) if repeats(header, j) => Some(RowError::Duplicate(column)),
        _ if j >= fields.len() => Some(RowError::EndOfRow),
        Some(column) if column != Column::Name && numeric_field(fields[j], limit_of(column))
            is None => Some(RowError::Invalid(column)),
        _ => None,
    }
}

/// What is wrong with a row at the leftmost of the first `upto` columns at
/// which anything is.
pub open spec fn first_fault(header: Seq<Seq<u8>>, fields: Seq<Seq<char>>, upto: int) -> Option<
    RowError,
>
    decreases upto,
{
    if upto <= 0 {
        None
    } else {
        match first_fault(header, fields, upto - 1) {
            Some(fault) => Some(fault),
            None => column_fault(header, fields, upto - 1),
        }
    }
}

/// Whether the header has a column of this label.
pub open spec fn present(header: Seq<Seq<u8>>, column: Column) -> bool {
    exists|j: int| 0 <= j < header.len() && column_of(#[trigger] header[j]) == Some(column)
}

/// A place in the header where the label of this column stands.
pub open spec fn position(header: Seq<Seq<u8>>, column: Column) -> int {
    choose|j: int| 0 <= j < header.len() && column_of(#[trigger] header[j]) == Some(column)
}

/// The record that a row gives under a header, or what is wrong with the row.
///
/// A fault at a column comes before a missing column, and of the missing
/// columns `Id` comes before `Name` and `Name` before `Age`.
pub open spec fn row_outcome(header: Seq<Seq<u8>>, fields: Seq<Seq<char>>) -> Result<
    PersonModel,
    RowError,
> {
    match first_fault(header, fields, header.len() as int) {
        Some(fault) => Err(fault),
        None => if !present(header, Column::Id) {
            Err(RowError::Missing(Column::Id))
        } else if !present(header, Column::Name) {
            Err(RowError::Missing(Column::Name))
        } else if !present(header, Column::Age) {
            Err(RowError::Missing(Column::Age))
        } else {
            Ok(
                PersonModel {
                    id: numeric_field(fields[position(header, Column::Id)], u64::MAX).unwrap(),
                    first_name: fields[position(header, Column::Name)],
                    age: numeric_field(fields[position(header, Column::Age)], 255).unwrap() as u8,
                },
            )
        },
    }
}

/// The outcome for one row as the reader handed it over: `None` is a row that
/// the reader rejected.
pub open spec fn read_outcome(header: Seq<Seq<u8>>, row: Option<Seq<Seq<char>>>) -> Result<
    PersonModel,
    RowError,
> {
    match row {
        None => Err(RowError::Unreadable),
        Some(fields) => row_outcome(header, fields),
    }
}

/// The records of the rows under a header, in the order of the rows, or the
/// error of the first row that is wrong.
pub open spec fn rows_outcome(header: Seq<Seq<u8>>, rows: Seq<Option<Seq<Seq<char>>>>) -> Result<
    Seq<PersonModel>,
    DecodeError,
>
    decreases rows.len(),
{
    if rows.len() == 0 {
        Ok(Seq::empty())
    } else {
        match rows_outcome(header, rows.drop_last()) {
            Err(error) => Err(error),
            Ok(persons) => match read_outcome(header, rows.last()) {
                Ok(person) => Ok(persons.push(person)),
                Err(cause) => Err(DecodeError::Row { row: (rows.len() - 1) as usize, cause }),
            },
        }
    }
}

/// The records of a file whose header and rows were read, or why it has none.
pub open spec fn file_outcome(
    header: Option<Seq<Seq<u8>>>,
    rows: Seq<Option<Seq<Seq<char>>>>,
) -> Result<Seq<PersonModel>, DecodeError> {
    match header {
        None => Err(DecodeError::Header),
        Some(labels) => rows_outcome(labels, rows),
    }
}

/// The mathematical value of a decoded row.
pub open spec fn person_outcome(outcome: Result<Person, RowError>) -> Result<
    PersonModel,
    RowError,
> {
    match outcome {
        Ok(person) => Ok(person@),
        Err(error) => Err(error),
    }
}

/// The mathematical value of a decoded file.
pub open spec fn persons_outcome(outcome: Result<Vec<Person>, DecodeError>) -> Result<
    Seq<PersonModel>,
    DecodeError,
> {
    match outcome {
        Ok(persons) => Ok(persons.deep_view()),
        Err(error) => Err(error),
    }
}

/// A fault among the first columns stays the first fault of the row.
proof fn lemma_fault_persists(header: Seq<Seq<u8>>, fields: Seq<Seq<char>>, m: int, n: int)
    requires
        m <= n,
        first_fault(header, fields, m) is Some,
    ensures
        first_fault(header, fields, n) == first_fault(header, fields, m),
    decreases n - m,
{
    if m < n {
        lemma_fault_persists(header, fields, m, n - 1);
    }
}

/// Where no fault was found among the first `n` columns, none of them has one.
proof fn lemma_no_fault(header: Seq<Seq<u8>>, fields: Seq<Seq<char>>, n: int, j: int)
    requires
        0 <= j < n,
        first_fault(header, fields, n) is None,
    ensures
        column_fault(header, fields, j) is None,
    decreases n,
{
    if j < n - 1 {
        lemma_no_fault(header, fields, n - 1, j);
    }
}

/// In a row without a fault each label stands in the header at most once.
proof fn lemma_position(header: Seq<Seq<u8>>, fields: Seq<Seq<char>>, column: Column, k: int)
    requires
        first_fault(header, fields, header.len() as int) is None,
        0 <= k < header.len(),
        column_of(header[k]) == Some(column),
    ensures
        present(header, column),
        position(header, column) == k,
{
    let p = position(header, column);
    assert(0 <= p < header.len() && column_of(header[p]) == Some(column));
    if p < k {
        lemma_no_fault(header, fields, header.len() as int, k);
        assert(repeats(header, k));
    } else if k < p {
        lemma_no_fault(header, fields, header.len() as int, p);
        assert(repeats(header, p));
    }
}

/// Finds the column that a header label names.
fn column_named(label: &[u8]) -> (column: Option<Column>)
    ensures
        column == column_of(label@),
{
    reveal(column_of);
    if label.len() == 2 && label[0] == 0x49 && label[1] == 0x64 {
        assert(label@ =~= label_of(Column::Id));
        Some(Column::Id)
    } else if label.len() == 4 && label[0] == 0x4e && label[1] == 0x61 && label[2] == 0x6d
        && label[3] == 0x65 {
        assert(label@ =~= label_of(Column::Name));
        Some(Column::Name)
    } else if label.len() == 3 && label[0] == 0x41 && label[1] == 0x67 && label[2] == 0x65 {
        assert(label@ =~= label_of(Column::Age));
        Some(Column::Age)
    } else {
        None
    }
}

/// Reads one data row against the header of its file.
///
/// Returns the record of the row, and otherwise the first thing that is wrong
/// with it.
pub fn decode_row(header: &Vec<Vec<u8>>, fields: &Vec<String>) -> (outcome: Result<
    Person,
    RowError,
>)
    ensures
        person_outcome(outcome) == row_outcome(header.deep_view(), fields.deep_view()),
{
    let ghost h = header.deep_view();
    let ghost f = fields.deep_view();
    let mut id: Option<u64> = None;
    let mut name: Option<usize> = None;
    let mut age: Option<u8> = None;
    let ghost mut id_at: int = 0;
    let ghost mut age_at: int = 0;
    let mut j: usize = 0;
    while j < header.len()
        invariant
            j <= header.len(),
            h == header.deep_view(),
            f == fields.deep_view(),
            first_fault(h, f, j as int) is None,
            j <= fields.len(),
            match id {
                Some(v) => 0 <= id_at < j && column_of(h[id_at]) == Some(Column::Id)
                    && numeric_field(f[id_at], u64::MAX) == Some(v),
                None => forall|k: int| 0 <= k < j ==> column_of(#[trigger] h[k]) != Some(Column::Id),
            },
            match name {
                Some(at) => at < j && column_of(h[at as int]) == Some(Column::Name),
                None => forall|k: int|
                    0 <= k < j ==> column_of(#[trigger] h[k]) != Some(Column::Name),
            },
            match age {
                Some(v) => 0 <= age_at < j && column_of(h[age_at]) == Some(Column::Age)
                    && numeric_field(f[age_at], 255) == Some(v as u64),
                None => forall|k: int|
                    0 <= k < j ==> column_of(#[trigger] h[k]) != Some(Column::Age),
            },
        decreases header.len() - j,
    {
        let column = column_named(header[j].as_slice());
        assert(h[j as int] == header[j as int]@);
        let taken = match column {
            Some(Column::Id) => id.is_some(),
            Some(Column::Name) => name.is_some(),
            Some(Column::Age) => age.is_some(),
            None => false,
        };
        if taken {
            proof {
                let earlier = match column {
                    Some(Column::Id) => id_at,
                    Some(Column::Age) => age_at,
                    _ => name.unwrap() as int,
                };
                assert(column_of(h[earlier]) == column_of(h[j as int]));
                assert(repeats(h, j as int));
                lemma_fault_persists(h, f, j + 1, h.len() as int);
            }
            return Err(RowError::Duplicate(column.unwrap()));
        }
        assert(column is Some ==> !repeats(h, j as int));
        if j >= fields.len() {
            proof {
                lemma_fault_persists(h, f, j + 1, h.len() as int);
            }
            return Err(RowError::EndOfRow);
        }
        assert(f[j as int] == fields[j as int]@);
        match column {
            Some(Column::Id) => {
                match parse_number(fields[j].as_str().as_bytes(), u64::MAX) {
                    Some(v) => {
                        id = Some(v);
                        proof {
                            id_at = j as int;
                        }
                    },
                    None => {
                        proof {
                            lemma_fault_persists(h, f, j + 1, h.len() as int);
                        }
                        return Err(RowError::Invalid(Column::Id));
                    },
                }
            },
            Some(Column::Name) => {
                name = Some(j);
            },
            Some(Column::Age) => {
                match parse_number(fields[j].as_str().as_bytes(), 255) {
                    Some(v) => {
                        age = Some(v as u8);
                        proof {
                            age_at = j as int;
                        }
                    },
                    None => {
                        proof {
                            lemma_fault_persists(h, f, j + 1, h.len() as int);
                        }
                        return Err(RowError::Invalid(Column::Age));
                    },
                }
            },
            None => {},
        }
        j += 1;
    }
    match (id, name, age) {
        (None, _, _) => Err(RowError::Missing(Column::Id)),
        (Some(_), None, _) => Err(RowError::Missing(Column::Name)),
        (Some(_), Some(_), None) => Err(RowError::Missing(Column::Age)),
        (Some(id), Some(at), Some(age)) => {
            proof {
                lemma_position(h, f, Column::Id, id_at);
                lemma_position(h, f, Column::Name, at as int);
                lemma_position(h, f, Column::Age, age_at);
            }
            Ok(Person { id, first_name: fields[at].clone(), age })
        },
    }
}

/// The error of the first wrong row stays the error of the file, however many
/// rows follow.
proof fn lemma_error_persists(header: Seq<Seq<u8>>, rows: Seq<Option<Seq<Seq<char>>>>, m: int)
    requires
        0 <= m <= rows.len(),
        rows_outcome(header, rows.take(m)) is Err,
    ensures
        rows_outcome(header, rows) == rows_outcome(header, rows.take(m)),
    decreases rows.len() - m,
{
    if m < rows.len() {
        assert(rows.drop_last().take(m) =~= rows.take(m));
        lemma_error_persists(header, rows.drop_last(), m);
    } else {
        assert(rows.take(m) =~= rows);
    }
}

/// Decodes the rows of a file against its header.
///
/// `header` is what reading the header gave, and `None` where it could not be
/// read; `rows` holds the data rows in file order, `None` for a row that the
/// reader rejected. Returns the records of all rows, in file order, and
/// otherwise the error of the first row that is wrong: no record is handed
/// out for the rows before it.
pub fn decode_file(header: &Option<Vec<Vec<u8>>>, rows: &Vec<Option<Vec<String>>>) -> (outcome:
    Result<Vec<Person>, DecodeError>)
    ensures
        persons_outcome(outcome) == file_outcome(header.deep_view(), rows.deep_view()),
{
    let labels = match header {
        None => {
            return Err(DecodeError::Header);
        },
        Some(labels) => labels,
    };
    let ghost h = labels.deep_view();
    let ghost r = rows.deep_view();
    let mut persons: Vec<Person> = Vec::new();
    let mut i: usize = 0;
    proof {
        assert(r.take(0) =~= Seq::empty());
        assert(persons.deep_view() =~= Seq::empty());
    }
    while i < rows.len()
        invariant
            i <= rows.len(),
            h == labels.deep_view(),
            header.deep_view() == Some(h),
            r == rows.deep_view(),
            rows_outcome(h, r.take(i as int)) == Ok::<Seq<PersonModel>, DecodeError>(
                persons.deep_view(),
            ),
        decreases rows.len() - i,
    {
        let ghost before = persons.deep_view();
        proof {
            assert(r.take(i + 1).drop_last() =~= r.take(i as int));
            assert(r.take(i + 1).last() == rows[i as int].deep_view());
        }
        let decoded = match &rows[i] {
            None => Err(RowError::Unreadable),
            Some(fields) => decode_row(labels, fields),
        };
        assert(person_outcome(decoded) == read_outcome(h, r.take(i + 1).last()));
        match decoded {
            Ok(person) => {
                persons.push(person);
                proof {
                    assert(persons.deep_view() =~= before.push(person@));
                }
            },
            Err(cause) => {
                proof {
                    assert(rows_outcome(h, r.take(i + 1)) == Err::<Seq<PersonModel>, DecodeError>(
                        DecodeError::Row { row: i, cause },
                    ));
                    lemma_error_persists(h, r, i + 1);
                }
                return Err(DecodeError::Row { row: i, cause });
            },
        }
        i += 1;
    }
    proof {
        assert(r.take(i as int) =~= r);
    }
    Ok(persons)
}

/// The labels of the header of the CSV data `bytes`, as `csv::Reader` with its
/// default settings splits them: `None` where the reader reports an error.
pub uninterp spec fn csv_header(bytes: Seq<u8>) -> Option<Seq<Seq<u8>>>;

/// The data rows of the CSV data `bytes`, in file order and without the
/// header, as `csv::Reader` with its default settings yields them as text
/// records: `None` stands for a row on which the reader reports an error.
pub uninterp spec fn csv_rows(bytes: Seq<u8>) -> Seq<Option<Seq<Seq<char>>>>;

/// Makes a reader over `bytes` with `csv::Reader::from_reader`, calls
/// `csv::Reader::byte_headers` on it and copies the labels out.
///
/// How the crate splits a line into fields is not proved here; the contract
/// only gives the result its name.
#[verifier::external_body]
pub(crate) fn read_header(bytes: &[u8]) -> (header: Option<Vec<Vec<u8>>>)
    ensures
        header.deep_view() == csv_header(bytes@),
{
    let mut reader = csv::Reader::from_reader(bytes);
    reader.byte_headers().ok().map(|labels| labels.iter().map(|label| label.to_vec()).collect())
}

/// Makes a reader over `bytes` with `csv::Reader::from_reader`, calls
/// `csv::Reader::into_records` on it and copies every item out, to the end of
/// the data: the fields of a record, or `None` for an error.
///
/// How the crate splits the data into records is not proved here; the
/// contract only gives the result its name.
#[verifier::external_body]
pub(crate) fn read_rows(bytes: &[u8]) -> (rows: Vec<Option<Vec<String>>>)
    ensures
        rows.deep_view() == csv_rows(bytes@),
{
    csv::Reader::from_reader(bytes)
        .into_records()
        .map(|row| row.ok().map(|fields| fields.iter().map(String::from).collect()))
        .collect()
}

/// The records of the CSV data `bytes`, or why it has none.
pub open spec fn decoded(bytes: Seq<u8>) -> Result<Seq<PersonModel>, DecodeError> {
    file_outcome(csv_header(bytes), csv_rows(bytes))
}

/// A file with a readable header and no data rows has no records, and that is
/// no error, whatever the header says.
pub proof fn lemma_header_only(bytes: Seq<u8>)
    requires
        csv_header(bytes) is Some,
        csv_rows(bytes).len() == 0,
    ensures
        decoded(bytes) == Ok::<Seq<PersonModel>, DecodeError>(Seq::empty()),
{
}

/// Where every data row is good, the file has exactly one record for each
/// row, in file order, and each is the record of its row.
pub proof fn lemma_good_rows(header: Seq<Seq<u8>>, rows: Seq<Option<Seq<Seq<char>>>>)
    requires
        forall|i: int| 0 <= i < rows.len() ==> read_outcome(header, #[trigger] rows[i]) is Ok,
    ensures
        rows_outcome(header, rows) matches Ok(persons) && persons.len() == rows.len() && forall|
            i: int,
        |
            0 <= i < rows.len() ==> read_outcome(header, rows[i]) == Ok::<PersonModel, RowError>(
                #[trigger] persons[i],
            ),
    decreases rows.len(),
{
    if rows.len() > 0 {
        let front = rows.drop_last();
        assert forall|i: int| 0 <= i < front.len() implies read_outcome(
            header,
            #[trigger] front[i],
        ) is Ok by {
            assert(front[i] == rows[i]);
        }
        lemma_good_rows(header, front);
        let persons = rows_outcome(header, rows).unwrap();
        assert forall|i: int| 0 <= i < rows.len() implies read_outcome(header, rows[i]) == Ok::<
            PersonModel,
            RowError,
        >(#[trigger] persons[i]) by {
            if i < front.len() {
                assert(front[i] == rows[i]);
            }
        }
    }
}

/// Under the header `Id,Name,Age` a row of three fields, the first a number
/// and the third a number up to 255, gives the record with exactly these
/// values.
pub proof fn lemma_plain_row(id: Seq<char>, name: Seq<char>, age: Seq<char>)
    requires
        numeric_field(id, u64::MAX) is Some,
        numeric_field(age, 255) is Some,
    ensures
        row_outcome(
            seq![label_of(Column::Id), label_of(Column::Name), label_of(Column::Age)],
            seq![id, name, age],
        ) == Ok::<PersonModel, RowError>(
            PersonModel {
                id: numeric_field(id, u64::MAX).unwrap(),
                first_name: name,
                age: numeric_field(age, 255).unwrap() as u8,
            },
        ),
{
    let header = seq![label_of(Column::Id), label_of(Column::Name), label_of(Column::Age)];
    let fields = seq![id, name, age];
    assert(column_of(header[0]) == Some(Column::Id) && column_of(header[1]) == Some(Column::Name)
        && column_of(header[2]) == Some(Column::Age)) by {
        reveal(column_of);
        assert(label_of(Column::Id).len() == 2);
        assert(label_of(Column::Name).len() == 4);
        assert(label_of(Column::Age).len() == 3);
    }
    assert(!repeats(header, 0) && !repeats(header, 1) && !repeats(header, 2));
    assert(first_fault(header, fields, 3) is None) by {
        reveal_with_fuel(first_fault, 4);
    }
    lemma_position(header, fields, Column::Id, 0);
    lemma_position(header, fields, Column::Name, 1);
    lemma_position(header, fields, Column::Age, 2);
}

/// A wrong row makes the whole file fail, wherever it stands: the rows
/// before it give no records either.
pub proof fn lemma_bad_row_fails(header: Seq<Seq<u8>>, rows: Seq<Option<Seq<Seq<char>>>>, i: int)
    requires
        0 <= i < rows.len(),
        read_outcome(header, rows[i]) is Err,
    ensures
        rows_outcome(header, rows) is Err,
    decreases rows.len(),
{
    if i < rows.len() - 1 {
        assert(rows.drop_last()[i] == rows[i]);
        lemma_bad_row_fails(header, rows.drop_last(), i);
    }
}

/// A row with a field under `Id` or `Age` that is not written as a number, or
/// that denotes a number above the limit of its column (255 for `Age`), makes
/// the file fail. The value is never cut down or replaced.
pub proof fn lemma_bad_number_fails(
    header: Seq<Seq<u8>>,
    rows: Seq<Option<Seq<Seq<char>>>>,
    i: int,
    j: int,
)
    requires
        0 <= i < rows.len(),
        rows[i] is Some,
        0 <= j < header.len(),
        j < rows[i].unwrap().len(),
        column_of(header[j]) == Some(Column::Id) || column_of(header[j]) == Some(Column::Age),
        match field_value(vstd::utf8::encode_utf8(rows[i].unwrap()[j])) {
            Some(value) => value > limit_of(column_of(header[j]).unwrap()),
            None => true,
        },
    ensures
        rows_outcome(header, rows) is Err,
{
    let fields = rows[i].unwrap();
    assert(column_fault(header, fields, j) is Some) by {
        reveal(field_number);
    }
    if first_fault(header, fields, header.len() as int) is None {
        lemma_no_fault(header, fields, header.len() as int, j);
    }
    lemma_bad_row_fails(header, rows, i);
}

} // verus!
