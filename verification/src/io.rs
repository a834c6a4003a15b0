use vstd::prelude::*;
use std::path::PathBuf;
use crate::data::{Column, ColumnView, Sample, SampleView};
use crate::decimal::{
    decimal, decimal_string, decimal_value, is_decimal_text, lemma_decimal_round_trip, parse_decimal,
};
use crate::number::{is_number, Number};
use crate::schema::number_views;
use crate::store::{numeric, stamps, store_wf, total_width, StreamView};
use vstd::string::StringExecFns;
use crate::text::{chars_of, push_char};
use crate::store::{column_views, packet_views, text_views, DataContainer, StoreView};

verus! {

/// `std::path::PathBuf`, carried and never looked into.
#[verifier::external_type_specification]
#[verifier::external_body]
pub struct ExPathBuf(PathBuf);

/// `csv::Error`, carried and never looked into.
#[verifier::external_type_specification]
#[verifier::external_body]
pub struct ExCsvError(csv::Error);

/// What each of `rows` holds, cell by cell.
pub open spec fn row_views(rows: Seq<Vec<String>>) -> Seq<Seq<Seq<char>>> {
    rows.map_values(|row: Vec<String>| text_views(row@))
}

/// All of `rows` have as many cells as the first.
pub open spec fn rectangular(rows: Seq<Seq<Seq<char>>>) -> bool {
    forall|i: int| 0 <= i < rows.len() ==> (#[trigger] rows[i]).len() == rows[0].len()
}

/// The bytes that the CSV writer makes of `rows`, with a carriage return and
/// a line feed after each row where `crlf` is set, and a line feed otherwise.
pub uninterp spec fn csv_text(rows: Seq<Seq<Seq<char>>>, crlf: bool) -> Seq<u8>;

/// The rows that the CSV reader makes of `content`, or nothing where it
/// reports an error.
pub uninterp spec fn csv_rows(content: Seq<u8>) -> Option<Seq<Seq<Seq<char>>>>;

/// Writes `rows` into memory with `csv::Writer::write_record`, one call for
/// each row, and takes the bytes with `into_inner`. The writer is the default
/// one but for its terminator. Writing into memory cannot fail, so the only
/// error that the writer reports is that of a row with another number of
/// cells than the first row.
#[verifier::external_body]
pub(crate) fn encode_rows(rows: &Vec<Vec<String>>, crlf: bool) -> (r: Result<Vec<u8>, csv::Error>)
    ensures
        r is Ok <==> rectangular(row_views(rows@)),
        r is Ok ==> r.unwrap()@ == csv_text(row_views(rows@), crlf),
{
    let terminator = if crlf { csv::Terminator::CRLF } else { csv::Terminator::Any(b'\n') };
    let mut writer = csv::WriterBuilder::new().has_headers(false).terminator(terminator).from_writer(
        Vec::new(),
    );
    for row in rows {
        writer.write_record(row)?;
    }
    writer.into_inner().map_err(|e| e.into_error().into())
}

/// Reads all records of `content` with `csv::Reader::records`. The reader
/// takes the first row as a record like the others and accepts rows of any
/// length.
#[verifier::external_body]
pub(crate) fn decode_rows(content: &[u8]) -> (r: Result<Vec<Vec<String>>, csv::Error>)
    ensures
        match r {
            Ok(rows) => csv_rows(content@) == Some(row_views(rows@)),
            Err(_) => csv_rows(content@) is None,
        },
{
    let mut reader = csv::ReaderBuilder::new().has_headers(false).flexible(true).from_reader(
        content,
    );
    let mut rows = Vec::new();
    for record in reader.records() {
        rows.push(record?.iter().map(|cell| cell.to_string()).collect());
    }
    Ok(rows)
}

/// How to save the data to a file, and the names that a file gave.
#[derive(Debug)]
pub struct FileOptions {
    pub file_path: PathBuf,
    /// The first column holds the time since the Unix epoch, not the time of
    /// the connection.
    pub save_absolute_time: bool,
    /// The log of the traffic goes to a second file.
    pub save_raw_traffic: bool,
    /// Names for the first columns.
    pub names: Vec<String>,
}

/// The header of the time column.
pub open spec fn time_header(absolute: bool) -> Seq<char> {
    if absolute {
        "Abs Time [ms]"@
    } else {
        "Time [ms]"@
    }
}

/// The name under which the column at `c` is saved: the name given for
/// that place, or, where none was given, the name of the column.
pub open spec fn export_name(names: Seq<Seq<char>>, columns: Seq<ColumnView>, c: int) -> Seq<
    char,
> {
    if c < names.len() {
        names[c]
    } else {
        columns[c].name
    }
}

pub open spec fn header_row(store: StoreView, names: Seq<Seq<char>>, absolute: bool) -> Seq<
    Seq<char>,
> {
    seq![time_header(absolute)] + Seq::new(
        store.columns.len(),
        |c: int| export_name(names, store.columns, c),
    )
}

/// The number of rows that the store is saved in: the number of samples of
/// its first column.
pub open spec fn row_count(store: StoreView) -> nat {
    if store.columns.len() == 0 {
        0
    } else {
        store.columns[0].samples.len()
    }
}

/// The value of `column` at `j`, empty where the column ends before.
pub open spec fn value_cell(column: ColumnView, j: int) -> Seq<char> {
    if j < column.samples.len() {
        column.samples[j].value
    } else {
        Seq::empty()
    }
}

/// The time of row `j`: that of the first column, in decimal digits.
pub open spec fn time_cell(store: StoreView, j: int, absolute: bool) -> Seq<char> {
    if absolute {
        decimal(store.columns[0].samples[j].absolute_time as nat)
    } else {
        decimal(store.columns[0].samples[j].time as nat)
    }
}

pub open spec fn data_row(store: StoreView, j: int, absolute: bool) -> Seq<Seq<char>> {
    seq![time_cell(store, j, absolute)] + Seq::new(
        store.columns.len(),
        |c: int| value_cell(store.columns[c], j),
    )
}

/// The rows of the data file: the header, then one row for each sample of
/// the first column.
pub open spec fn export_rows(store: StoreView, names: Seq<Seq<char>>, absolute: bool) -> Seq<
    Seq<Seq<char>>,
> {
    seq![header_row(store, names, absolute)] + Seq::new(
        row_count(store),
        |j: int| data_row(store, j, absolute),
    )
}

/// The rows of the traffic file: the header, then one row for each packet
/// of the log with its two times and its payload.
pub open spec fn raw_rows(store: StoreView) -> Seq<Seq<Seq<char>>> {
    seq![seq!["Time [ms]"@, "Abs Time [ms]"@, "Raw Traffic"@]] + Seq::new(
        store.raw_traffic.len(),
        |j: int|
            seq![
                decimal(store.raw_traffic[j].relative_time as nat),
                decimal(store.raw_traffic[j].absolute_time as nat),
                store.raw_traffic[j].payload,
            ],
    )
}

/// Why a file was not saved.
#[derive(Debug)]
pub enum ExportError {
    /// The writer refused the rows.
    Writer,
}

/// The rows of the data file.
pub fn data_rows(data: &DataContainer, csv_options: &FileOptions) -> (rows: Vec<Vec<String>>)
    ensures
        row_views(rows@) == export_rows(
            data@,
            text_views(csv_options.names@),
            csv_options.save_absolute_time,
        ),
{
    let ghost store = data@;
    let ghost names = text_views(csv_options.names@);
    let absolute = csv_options.save_absolute_time;
    let columns = data.columns();
    let mut header: Vec<String> = Vec::new();
    header.push(
        if absolute {
            "Abs Time [ms]".to_owned()
        } else {
            "Time [ms]".to_owned()
        },
    );
    let mut c: usize = 0;
    proof {
        assert(text_views(header@) =~= seq![time_header(absolute)] + Seq::new(
            0,
            |c: int| export_name(names, store.columns, c),
        ));
    }
    while c < columns.len()
        invariant
            c <= columns@.len(),
            column_views(columns@) == store.columns,
            names == text_views(csv_options.names@),
            text_views(header@) == seq![time_header(absolute)] + Seq::new(
                c as nat,
                |c: int| export_name(names, store.columns, c),
            ),
        decreases columns.len() - c,
    {
        let name = if c < csv_options.names.len() {
            csv_options.names[c].clone()
        } else {
            columns[c].name().to_owned()
        };
        let ghost before = text_views(header@);
        header.push(name);
        proof {
            assert(column_views(columns@)[c as int] == columns@[c as int]@);
            assert(text_views(header@) =~= before.push(name@));
            assert(text_views(header@) =~= seq![time_header(absolute)] + Seq::new(
                (c + 1) as nat,
                |c: int| export_name(names, store.columns, c),
            ));
        }
        c += 1;
    }
    let mut rows: Vec<Vec<String>> = Vec::new();
    rows.push(header);
    let count = if columns.len() == 0 {
        0
    } else {
        columns[0].len()
    };
    proof {
        if columns@.len() > 0 {
            assert(column_views(columns@)[0] == columns@[0]@);
        }
        assert(row_views(rows@) =~= seq![header_row(store, names, absolute)] + Seq::new(
            0,
            |j: int| data_row(store, j, absolute),
        ));
    }
    let mut j: usize = 0;
    while j < count
        invariant
            j <= count == row_count(store),
            column_views(columns@) == store.columns,
            row_views(rows@) == seq![header_row(store, names, absolute)] + Seq::new(
                j as nat,
                |j: int| data_row(store, j, absolute),
            ),
        decreases count - j,
    {
        let row = data_row_of(columns, j, absolute, Ghost(store));
        let ghost before = row_views(rows@);
        rows.push(row);
        proof {
            assert(row_views(rows@) =~= before.push(text_views(row@)));
            assert(row_views(rows@) =~= seq![header_row(store, names, absolute)] + Seq::new(
                (j + 1) as nat,
                |j: int| data_row(store, j, absolute),
            ));
        }
        j += 1;
    }
    rows
}

/// Row `j` of the data file.
fn data_row_of(columns: &Vec<Column>, j: usize, absolute: bool, Ghost(store): Ghost<StoreView>)
    -> (row: Vec<String>)
    requires
        column_views(columns@) == store.columns,
        j < row_count(store),
    ensures
        text_views(row@) == data_row(store, j as int, absolute),
{
    let mut row: Vec<String> = Vec::new();
    proof {
        assert(column_views(columns@)[0] == columns@[0]@);
    }
    match columns[0].get(j) {
        Some(sample) => {
            row.push(
                decimal_string(
                    if absolute {
                        sample.absolute_time
                    } else {
                        sample.time
                    },
                ),
            );
        },
        None => {},
    }
    proof {
        assert(text_views(row@) =~= seq![time_cell(store, j as int, absolute)] + Seq::new(
            0,
            |c: int| value_cell(store.columns[c], j as int),
        ));
    }
    let mut c: usize = 0;
    while c < columns.len()
        invariant
            c <= columns@.len(),
            column_views(columns@) == store.columns,
            text_views(row@) == seq![time_cell(store, j as int, absolute)] + Seq::new(
                c as nat,
                |c: int| value_cell(store.columns[c], j as int),
            ),
        decreases columns.len() - c,
    {
        proof {
            assert(column_views(columns@)[c as int] == columns@[c as int]@);
        }
        let cell = match columns[c].get(j) {
            Some(sample) => sample.value.as_str().to_owned(),
            None => String::new(),
        };
        let ghost before = text_views(row@);
        row.push(cell);
        proof {
            assert(text_views(row@) =~= before.push(cell@));
            assert(text_views(row@) =~= seq![time_cell(store, j as int, absolute)] + Seq::new(
                (c + 1) as nat,
                |c: int| value_cell(store.columns[c], j as int),
            ));
        }
        c += 1;
    }
    row
}

} // verus!

verus! {

/// The bytes of the files of one export.
#[derive(Debug)]
pub struct Saved {
    /// The data file.
    pub data: Vec<u8>,
    /// The traffic file, where one was asked for.
    pub raw: Option<Vec<u8>>,
}

pub proof fn lemma_export_is_rectangular(store: StoreView, names: Seq<Seq<char>>, absolute: bool)
    ensures
        rectangular(export_rows(store, names, absolute)),
        rectangular(raw_rows(store)),
{
    let rows = export_rows(store, names, absolute);
    assert forall|i: int| 0 <= i < rows.len() implies (#[trigger] rows[i]).len()
        == rows[0].len() by {
        assert(rows[0] == header_row(store, names, absolute));
        if i > 0 {
            assert(rows[i] == data_row(store, i - 1, absolute));
        }
    }
    let raw = raw_rows(store);
    assert forall|i: int| 0 <= i < raw.len() implies (#[trigger] raw[i]).len() == raw[0].len() by {
        assert(raw[0].len() == 3);
        if i > 0 {
            assert(raw[i].len() == 3);
        }
    }
}

/// The rows of the traffic file.
pub fn traffic_rows(data: &DataContainer) -> (rows: Vec<Vec<String>>)
    ensures
        row_views(rows@) == raw_rows(data@),
{
    let ghost store = data@;
    let packets = data.raw_traffic();
    let mut header: Vec<String> = Vec::new();
    header.push("Time [ms]".to_owned());
    header.push("Abs Time [ms]".to_owned());
    header.push("Raw Traffic".to_owned());
    let mut rows: Vec<Vec<String>> = Vec::new();
    proof {
        assert(text_views(header@) =~= seq!["Time [ms]"@, "Abs Time [ms]"@, "Raw Traffic"@]);
    }
    let ghost head = text_views(header@);
    rows.push(header);
    proof {
        assert(row_views(rows@) =~= seq![head] + Seq::new(0, |j: int| raw_rows(store)[j + 1]));
    }
    let mut j: usize = 0;
    while j < packets.len()
        invariant
            j <= packets@.len(),
            packet_views(packets@) == store.raw_traffic,
            head == seq!["Time [ms]"@, "Abs Time [ms]"@, "Raw Traffic"@],
            row_views(rows@) == seq![head] + Seq::new(j as nat, |j: int| raw_rows(store)[j + 1]),
        decreases packets.len() - j,
    {
        let packet = &packets[j];
        let mut row: Vec<String> = Vec::new();
        row.push(decimal_string(packet.relative_time));
        row.push(decimal_string(packet.absolute_time));
        row.push(packet.payload.clone());
        let ghost before = row_views(rows@);
        rows.push(row);
        proof {
            assert(packet_views(packets@)[j as int] == packets@[j as int]@);
            assert(text_views(row@) =~= raw_rows(store)[j + 1]);
            assert(row_views(rows@) =~= before.push(text_views(row@)));
            assert(row_views(rows@) =~= seq![head] + Seq::new(
                (j + 1) as nat,
                |j: int| raw_rows(store)[j + 1],
            ));
        }
        j += 1;
    }
    proof {
        assert(row_views(rows@) =~= raw_rows(store));
    }
    rows
}

/// The bytes of the traffic file.
pub fn save_raw(data: &DataContainer) -> (r: Result<Vec<u8>, ExportError>)
    ensures
        r is Ok,
        r.unwrap()@ == csv_text(raw_rows(data@), false),
{
    let rows = traffic_rows(data);
    proof {
        lemma_export_is_rectangular(data@, Seq::empty(), false);
    }
    match encode_rows(&rows, false) {
        Ok(bytes) => Ok(bytes),
        Err(_) => Err(ExportError::Writer),
    }
}

/// The bytes of the files that hold the data as it stands: the data file
/// and, where `save_raw_traffic` is set, the traffic file.
pub fn save_to_csv(data: &DataContainer, csv_options: &FileOptions) -> (r: Result<
    Saved,
    ExportError,
>)
    ensures
        r is Ok,
        r.unwrap().data@ == csv_text(
            export_rows(data@, text_views(csv_options.names@), csv_options.save_absolute_time),
            false,
        ),
        match r.unwrap().raw {
            Some(bytes) => csv_options.save_raw_traffic && bytes@ == csv_text(
                raw_rows(data@),
                false,
            ),
            None => !csv_options.save_raw_traffic,
        },
{
    let rows = data_rows(data, csv_options);
    proof {
        lemma_export_is_rectangular(
            data@,
            text_views(csv_options.names@),
            csv_options.save_absolute_time,
        );
    }
    let bytes = match encode_rows(&rows, false) {
        Ok(bytes) => bytes,
        Err(_) => {
            return Err(ExportError::Writer);
        },
    };
    let raw = if csv_options.save_raw_traffic {
        match save_raw(data) {
            Ok(raw) => Some(raw),
            Err(error) => {
                return Err(error);
            },
        }
    } else {
        None
    };
    Ok(Saved { data: bytes, raw })
}

} // verus!

verus! {

/// Why a file was not taken.
#[derive(Clone, Copy, Debug, PartialEq, Eq, Structural)]
pub enum ImportError {
    /// The reader could not make rows of the file.
    Malformed,
    /// The row has not one cell for the time and one for each name of the
    /// header. Rows count from the header, which is row 0.
    ColumnCount { row: usize },
    /// The first cell of the row is no time: it is not made of decimal
    /// digits alone, or the number is too large.
    Time { row: usize },
    /// The cell at `column` of the row is not written as a number. Cells
    /// count from the time, which is cell 0.
    Value { row: usize, column: usize },
}

/// The names that the header gives to the columns: all its cells but the
/// first.
pub open spec fn names_of(rows: Seq<Seq<Seq<char>>>) -> Seq<Seq<char>> {
    if rows.len() == 0 || rows[0].len() == 0 {
        Seq::empty()
    } else {
        rows[0].skip(1)
    }
}

/// Whether the header says that the times count from the Unix epoch.
pub open spec fn absolute_header(rows: Seq<Seq<Seq<char>>>) -> bool {
    rows.len() > 0 && rows[0].len() > 0 && rows[0][0] == time_header(true)
}

/// The time that `cell` writes, if it writes one.
pub open spec fn cell_time(cell: Seq<char>) -> Option<u128> {
    if is_decimal_text(cell) && decimal_value(cell) <= u128::MAX {
        Some(decimal_value(cell) as u128)
    } else {
        None
    }
}

/// The first cell behind the time, among the first `upto` cells of `row`,
/// that is not written as a number.
pub open spec fn first_bad_value(row: Seq<Seq<char>>, upto: int) -> Option<int>
    decreases upto,
{
    if upto <= 1 {
        None
    } else {
        match first_bad_value(row, upto - 1) {
            Some(c) => Some(c),
            None => if is_number(row[upto - 1]) {
                None
            } else {
                Some(upto - 1)
            },
        }
    }
}

/// What is wrong with the row at `index`, if anything, where the header
/// names `width` columns.
pub open spec fn row_error(row: Seq<Seq<char>>, width: nat, index: usize) -> Option<ImportError> {
    if row.len() != width + 1 {
        Some(ImportError::ColumnCount { row: index })
    } else if cell_time(row[0]) is None {
        Some(ImportError::Time { row: index })
    } else {
        match first_bad_value(row, row.len() as int) {
            Some(c) => Some(ImportError::Value { row: index, column: c as usize }),
            None => None,
        }
    }
}

/// What is wrong with the first of the rows before `upto` that has
/// something wrong, if any has.
pub open spec fn first_error(rows: Seq<Seq<Seq<char>>>, upto: int) -> Option<ImportError>
    decreases upto,
{
    if upto <= 1 {
        None
    } else {
        match first_error(rows, upto - 1) {
            Some(e) => Some(e),
            None => row_error(rows[upto - 1], names_of(rows).len(), (upto - 1) as usize),
        }
    }
}

/// The sample that the row at `j` gives to the column at `c`. The time of the
/// row is the one that the header announces; the other time is zero.
pub open spec fn imported_sample(rows: Seq<Seq<Seq<char>>>, j: int, c: int) -> SampleView {
    let time = cell_time(rows[j][0]).unwrap();
    SampleView {
        time: if absolute_header(rows) {
            0
        } else {
            time
        },
        absolute_time: if absolute_header(rows) {
            time
        } else {
            0
        },
        value: rows[j][c + 1],
    }
}

/// The column at `c` of a file.
pub open spec fn imported_column(rows: Seq<Seq<Seq<char>>>, c: int) -> ColumnView {
    ColumnView {
        name: names_of(rows)[c],
        samples: Seq::new((rows.len() - 1) as nat, |j: int| imported_sample(rows, j + 1, c)),
    }
}

/// The store after it took the rows of a file: it holds the columns of the
/// file and nothing else, all in one stream without a name, and it is marked
/// as holding a file. Its settings stay.
pub open spec fn imported(store: StoreView, rows: Seq<Seq<Seq<char>>>) -> StoreView {
    StoreView {
        columns: Seq::new(names_of(rows).len(), |c: int| imported_column(rows, c)),
        streams: if names_of(rows).len() > 0 {
            seq![StreamView { id: Seq::empty(), start: 0, width: names_of(rows).len() }]
        } else {
            Seq::empty()
        },
        raw_traffic: Seq::empty(),
        loaded_from_file: true,
        failures: 0,
        ..store
    }
}

/// The numbers that the cells behind the time write, or the place of the
/// first cell that writes none.
fn read_values(row: &Vec<String>) -> (r: Result<Vec<Number>, usize>)
    ensures
        match r {
            Ok(values) => first_bad_value(text_views(row@), row@.len() as int) is None && (
            row@.len() >= 1 ==> number_views(values@) == text_views(row@).skip(1)),
            Err(c) => first_bad_value(text_views(row@), row@.len() as int) == Some(c as int),
        },
{
    let mut values: Vec<Number> = Vec::new();
    let mut c: usize = 1;
    proof {
        if row@.len() >= 1 {
            assert(number_views(values@) =~= text_views(row@).subrange(1, 1));
        }
    }
    while c < row.len()
        invariant
            1 <= c,
            c <= row@.len() || c == 1,
            first_bad_value(text_views(row@), c as int) is None,
            row@.len() >= 1 ==> number_views(values@) == text_views(row@).subrange(1, c as int),
        decreases row.len() - c,
    {
        proof {
            assert(text_views(row@)[c as int] == row@[c as int]@);
        }
        match Number::parse(row[c].as_str()) {
            Some(number) => {
                let ghost before = number_views(values@);
                values.push(number);
                proof {
                    assert(number_views(values@) =~= before.push(number@));
                    assert(number_views(values@) =~= text_views(row@).subrange(1, c + 1));
                }
            },
            None => {
                proof {
                    assert(first_bad_value(text_views(row@), c + 1) == Some(c as int));
                    lemma_first_bad_value_stays(text_views(row@), c + 1, row@.len() as int);
                }
                return Err(c);
            },
        }
        c += 1;
    }
    proof {
        if row@.len() >= 1 {
            assert(text_views(row@).subrange(1, c as int) =~= text_views(row@).skip(1));
        }
    }
    Ok(values)
}

proof fn lemma_first_bad_value_stays(row: Seq<Seq<char>>, found: int, upto: int)
    requires
        first_bad_value(row, found) is Some,
        found <= upto,
    ensures
        first_bad_value(row, upto) == first_bad_value(row, found),
    decreases upto - found,
{
    if found < upto {
        lemma_first_bad_value_stays(row, found, upto - 1);
    }
}

proof fn lemma_first_error_stays(rows: Seq<Seq<Seq<char>>>, found: int, upto: int)
    requires
        first_error(rows, found) is Some,
        found <= upto,
    ensures
        first_error(rows, upto) == first_error(rows, found),
    decreases upto - found,
{
    if found < upto {
        lemma_first_error_stays(rows, found, upto - 1);
    }
}

/// The time that `cell` writes.
fn parse_time(cell: &String) -> (time: Option<u128>)
    ensures
        time == cell_time(cell@),
{
    let chars = chars_of(cell.as_str());
    parse_decimal(&chars)
}

/// The time and the values of `row`, or what is wrong with it.
fn read_row(row: &Vec<String>, width: usize, index: usize) -> (r: Result<
    (u128, Vec<Number>),
    ImportError,
>)
    ensures
        match r {
            Ok(cells) => row_error(text_views(row@), width as nat, index) is None && Some(cells.0)
                == cell_time(text_views(row@)[0]) && number_views(cells.1@) == text_views(
                row@,
            ).skip(1),
            Err(e) => row_error(text_views(row@), width as nat, index) == Some(e),
        },
{
    proof {
        assert(text_views(row@).len() == row@.len());
        if row@.len() > 0 {
            assert(text_views(row@)[0] == row@[0]@);
        }
    }
    let cells = row.len();
    if width == usize::MAX || cells != width + 1 {
        return Err(ImportError::ColumnCount { row: index });
    }
    let time = match parse_time(&row[0]) {
        Some(time) => time,
        None => {
            return Err(ImportError::Time { row: index });
        },
    };
    match read_values(row) {
        Ok(values) => Ok((time, values)),
        Err(c) => Err(ImportError::Value { row: index, column: c }),
    }
}

/// Takes the rows of a file into the store. Either every row is in order,
/// and the store then holds the file and `csv_options` its names; or the
/// first row that is not in order is reported, and nothing changes.
pub fn load_rows(
    data: &mut DataContainer,
    csv_options: &mut FileOptions,
    rows: &Vec<Vec<String>>,
) -> (r: Result<(), ImportError>)
    requires
        old(data).wf(),
    ensures
        final(data).wf(),
        final(csv_options).file_path == old(csv_options).file_path,
        final(csv_options).save_absolute_time == old(csv_options).save_absolute_time,
        final(csv_options).save_raw_traffic == old(csv_options).save_raw_traffic,
        match r {
            Ok(()) => {
                &&& first_error(row_views(rows@), rows@.len() as int) is None
                &&& final(data)@ == imported(old(data)@, row_views(rows@))
                &&& text_views(final(csv_options).names@) == names_of(row_views(rows@))
            },
            Err(e) => {
                &&& first_error(row_views(rows@), rows@.len() as int) == Some(e)
                &&& final(data)@ == old(data)@
                &&& final(csv_options).names@ == old(csv_options).names@
            },
        },
{
    let ghost file = row_views(rows@);
    let width: usize = if rows.len() == 0 || rows[0].len() == 0 {
        0
    } else {
        rows[0].len() - 1
    };
    proof {
        if rows@.len() > 0 {
            assert(file[0] == text_views(rows@[0]@));
        }
        assert(width == names_of(file).len());
    }
    let mut times: Vec<u128> = Vec::new();
    let mut cells: Vec<Vec<Number>> = Vec::new();
    let mut j: usize = 1;
    while j < rows.len()
        invariant
            1 <= j,
            j <= rows@.len() || j == 1,
            *data == *old(data),
            *csv_options == *old(csv_options),
            data.wf(),
            file == row_views(rows@),
            width == names_of(file).len(),
            first_error(file, j as int) is None,
            times@.len() == j - 1,
            cells@.len() == j - 1,
            forall|k: int|
                1 <= k < j ==> Some(#[trigger] times@[k - 1]) == cell_time(file[k][0])
                    && number_views(cells@[k - 1]@) == file[k].skip(1) && file[k].len() == width
                    + 1,
        decreases rows.len() - j,
    {
        proof {
            assert(file[j as int] == text_views(rows@[j as int]@));
        }
        match read_row(&rows[j], width, j) {
            Ok(row) => {
                times.push(row.0);
                cells.push(row.1);
            },
            Err(e) => {
                proof {
                    assert(first_error(file, j + 1) == Some(e));
                    lemma_first_error_stays(file, j + 1, rows@.len() as int);
                }
                return Err(e);
            },
        }
        j += 1;
    }
    let count = times.len();
    proof {
        if rows@.len() >= 1 {
            assert(j == rows@.len());
        }
    }
    let absolute = rows.len() > 0 && rows[0].len() > 0 && rows[0][0] == "Abs Time [ms]".to_owned();
    proof {
        if rows@.len() > 0 && rows@[0]@.len() > 0 {
            assert(file[0][0] == rows@[0]@[0]@);
        }
        assert(absolute == absolute_header(file));
    }
    let mut names: Vec<String> = Vec::new();
    let mut columns: Vec<Column> = Vec::new();
    let mut c: usize = 0;
    proof {
        assert(text_views(names@) =~= names_of(file).take(0));
        assert(column_views(columns@) =~= Seq::new(0, |c: int| imported_column(file, c)));
    }
    while c < width
        invariant
            c <= width == names_of(file).len(),
            file == row_views(rows@),
            absolute == absolute_header(file),
            count == times@.len() == cells@.len(),
            count == if rows@.len() == 0 {
                0
            } else {
                rows@.len() - 1
            },
            *csv_options == *old(csv_options),
            forall|k: int|
                1 <= k <= count ==> Some(#[trigger] times@[k - 1]) == cell_time(file[k][0])
                    && number_views(cells@[k - 1]@) == file[k].skip(1) && file[k].len() == width
                    + 1,
            text_views(names@) == names_of(file).take(c as int),
            column_views(columns@) == Seq::new(c as nat, |c: int| imported_column(file, c)),
            forall|i: int| 0 <= i < c ==> numeric(#[trigger] column_views(columns@)[i].samples),
        decreases width - c,
    {
        proof {
            assert(file[0] == text_views(rows@[0]@));
            assert(file[0][c + 1] == rows@[0]@[c + 1]@);
        }
        let name = rows[0][c + 1].clone();
        let mut column = Column::new(name.clone());
        let mut k: usize = 0;
        proof {
            assert(column@.samples =~= Seq::new(0, |j: int| imported_sample(file, j + 1, c as int)));
        }
        while k < count
            invariant
                k <= count == times@.len() == cells@.len(),
                count == 0 || count + 1 == file.len(),
                c < width,
                file == row_views(rows@),
                absolute == absolute_header(file),
                forall|k: int|
                    1 <= k <= count ==> Some(#[trigger] times@[k - 1]) == cell_time(file[k][0])
                        && number_views(cells@[k - 1]@) == file[k].skip(1) && file[k].len()
                        == width + 1,
                column@.name == name@,
                column@.samples == Seq::new(
                    k as nat,
                    |j: int| imported_sample(file, j + 1, c as int),
                ),
                numeric(column@.samples),
            decreases count - k,
        {
            proof {
                assert(Some(times@[k + 1 - 1]) == cell_time(file[k + 1][0]));
                assert(number_views(cells@[k as int]@).len() == width);
                assert(number_views(cells@[k as int]@)[c as int] == cells@[k as int]@[c as int]@);
                assert(file[k + 1].skip(1)[c as int] == file[k + 1][c + 1]);
            }
            let time = times[k];
            let sample = Sample {
                time: if absolute {
                    0
                } else {
                    time
                },
                absolute_time: if absolute {
                    time
                } else {
                    0
                },
                value: cells[k][c].clone(),
            };
            let ghost before = column@.samples;
            column.push_unbounded(sample);
            proof {
                assert(sample@ == imported_sample(file, k + 1, c as int));
                assert(column@.samples =~= Seq::new(
                    (k + 1) as nat,
                    |j: int| imported_sample(file, j + 1, c as int),
                ));
                assert forall|j: int| 0 <= j < column@.samples.len() implies is_number(
                    (#[trigger] column@.samples[j]).value,
                ) by {
                    if j < k {
                        assert(column@.samples[j] == before[j]);
                    }
                }
            }
            k += 1;
        }
        let ghost names_before = text_views(names@);
        let ghost columns_before = column_views(columns@);
        names.push(name);
        columns.push(column);
        proof {
            assert(text_views(names@) =~= names_before.push(name@));
            assert(text_views(names@) =~= names_of(file).take(c + 1));
            assert(column_views(columns@) =~= columns_before.push(column@));
            assert(column@ == imported_column(file, c as int));
            assert(column_views(columns@) =~= Seq::new(
                (c + 1) as nat,
                |c: int| imported_column(file, c),
            ));
        }
        c += 1;
    }
    proof {
        assert(names_of(file).take(c as int) =~= names_of(file));
        assert forall|i: int| 0 <= i < columns@.len() implies stamps(
            (#[trigger] column_views(columns@)[i]).samples,
        ) == stamps(column_views(columns@)[0].samples) by {
            assert(column_views(columns@)[i] == imported_column(file, i));
            assert(column_views(columns@)[0] == imported_column(file, 0));
            assert(stamps(imported_column(file, i).samples) =~= stamps(
                imported_column(file, 0).samples,
            ));
        }
    }
    data.install(columns);
    csv_options.names = names;
    Ok(())
}

/// Takes the file with this content into the store. The content is read
/// as CSV: a header, whose first cell names the time and whose other cells
/// name the columns, then one row for each sample.
pub fn open_from_csv(data: &mut DataContainer, csv_options: &mut FileOptions, content: &[u8])
    -> (r: Result<(), ImportError>)
    requires
        old(data).wf(),
    ensures
        final(data).wf(),
        final(csv_options).file_path == old(csv_options).file_path,
        final(csv_options).save_absolute_time == old(csv_options).save_absolute_time,
        final(csv_options).save_raw_traffic == old(csv_options).save_raw_traffic,
        match (csv_rows(content@), r) {
            (None, Err(e)) => e == ImportError::Malformed && final(data)@ == old(data)@
                && final(csv_options).names@ == old(csv_options).names@,
            (Some(rows), Ok(())) => {
                &&& first_error(rows, rows.len() as int) is None
                &&& final(data)@ == imported(old(data)@, rows)
                &&& text_views(final(csv_options).names@) == names_of(rows)
            },
            (Some(rows), Err(e)) => {
                &&& first_error(rows, rows.len() as int) == Some(e)
                &&& final(data)@ == old(data)@
                &&& final(csv_options).names@ == old(csv_options).names@
            },
            (None, Ok(())) => false,
        },
{
    match decode_rows(content) {
        Ok(rows) => load_rows(data, csv_options, &rows),
        Err(_) => Err(ImportError::Malformed),
    }
}

} // verus!

verus! {

/// All columns carry the times of the first, as far as the first goes.
pub open spec fn aligned(store: StoreView) -> bool {
    forall|c: int, j: int|
        #![trigger store.columns[c].samples[j]]
        0 <= c < store.columns.len() && 0 <= j < row_count(store) ==> {
            &&& store.columns[c].samples.len() == row_count(store)
            &&& store.columns[c].samples[j].time == store.columns[0].samples[j].time
            &&& store.columns[c].samples[j].absolute_time
                == store.columns[0].samples[j].absolute_time
        }
}

proof fn lemma_no_bad_value(row: Seq<Seq<char>>, upto: int)
    requires
        upto <= row.len(),
        forall|c: int| 1 <= c < upto ==> is_number(#[trigger] row[c]),
    ensures
        first_bad_value(row, upto) is None,
    decreases upto,
{
    if upto > 1 {
        lemma_no_bad_value(row, upto - 1);
    }
}

proof fn lemma_no_error(rows: Seq<Seq<Seq<char>>>, upto: int)
    requires
        upto <= rows.len(),
        forall|j: int|
            1 <= j < upto ==> row_error(#[trigger] rows[j], names_of(rows).len(), j as usize)
                is None,
    ensures
        first_error(rows, upto) is None,
    decreases upto,
{
    if upto > 1 {
        lemma_no_error(rows, upto - 1);
    }
}

/// The two headers of the time column differ.
proof fn lemma_time_headers_differ()
    ensures
        time_header(false) != time_header(true),
{
    reveal_strlit("Time [ms]");
    reveal_strlit("Abs Time [ms]");
    assert(time_header(false).len() == 9);
    assert(time_header(true).len() == 13);
}

/// The shape of the rows that a store is saved in.
proof fn lemma_export_shape(store: StoreView, names: Seq<Seq<char>>, absolute: bool)
    ensures
        ({
            let rows = export_rows(store, names, absolute);
            &&& rows.len() == row_count(store) + 1
            &&& rows[0] == header_row(store, names, absolute)
            &&& forall|j: int|
                1 <= j < rows.len() ==> #[trigger] rows[j] == data_row(store, j - 1, absolute)
            &&& names_of(rows) == Seq::new(
                store.columns.len(),
                |c: int| export_name(names, store.columns, c),
            )
            &&& absolute_header(rows) == absolute
        }),
{
    let rows = export_rows(store, names, absolute);
    assert(rows[0] == header_row(store, names, absolute));
    assert(rows[0].len() == store.columns.len() + 1);
    assert(names_of(rows) =~= Seq::new(
        store.columns.len(),
        |c: int| export_name(names, store.columns, c),
    ));
    lemma_time_headers_differ();
    assert(rows[0][0] == time_header(absolute));
}

/// The time of the first column at `j`, as it is saved.
pub open spec fn saved_time(store: StoreView, j: int, absolute: bool) -> u128 {
    if absolute {
        store.columns[0].samples[j].absolute_time
    } else {
        store.columns[0].samples[j].time
    }
}

/// A row that a table is saved in is in order.
proof fn lemma_saved_row_is_in_order(store: StoreView, j: int, absolute: bool, index: usize)
    requires
        forall|c: int|
            0 <= c < store.columns.len() ==> numeric((#[trigger] store.columns[c]).samples),
        aligned(store),
        0 <= j < row_count(store),
    ensures
        row_error(data_row(store, j, absolute), store.columns.len(), index) is None,
        cell_time(data_row(store, j, absolute)[0]) == Some(saved_time(store, j, absolute)),
{
    let row = data_row(store, j, absolute);
    assert(row.len() == store.columns.len() + 1);
    let sample = store.columns[0].samples[j];
    lemma_decimal_round_trip(sample.time as nat);
    lemma_decimal_round_trip(sample.absolute_time as nat);
    assert(row[0] == time_cell(store, j, absolute));
    assert forall|c: int| 1 <= c < row.len() implies is_number(#[trigger] row[c]) by {
        assert(row[c] == value_cell(store.columns[c - 1], j));
        let cell = store.columns[c - 1].samples[j];
        assert(store.columns[c - 1].samples.len() == row_count(store));
        assert(numeric(store.columns[c - 1].samples));
        assert(is_number(cell.value));
    }
    lemma_no_bad_value(row, row.len() as int);
}

/// The rows that a table is saved in are in order.
proof fn lemma_saved_rows_are_in_order(store: StoreView, names: Seq<Seq<char>>, absolute: bool)
    requires
        forall|c: int|
            0 <= c < store.columns.len() ==> numeric((#[trigger] store.columns[c]).samples),
        aligned(store),
    ensures
        ({
            let rows = export_rows(store, names, absolute);
            &&& first_error(rows, rows.len() as int) is None
            &&& forall|j: int|
                1 <= j < rows.len() ==> cell_time((#[trigger] rows[j])[0]) == Some(
                    saved_time(store, j - 1, absolute),
                )
        }),
{
    let rows = export_rows(store, names, absolute);
    lemma_export_shape(store, names, absolute);
    assert forall|j: int| 1 <= j < rows.len() implies row_error(
        #[trigger] rows[j],
        names_of(rows).len(),
        j as usize,
    ) is None && cell_time(rows[j][0]) == Some(saved_time(store, j - 1, absolute)) by {
        lemma_saved_row_is_in_order(store, j - 1, absolute, j as usize);
    }
    lemma_no_error(rows, rows.len() as int);
}

/// All columns of the store are as long as the first.
pub open spec fn even(store: StoreView) -> bool {
    forall|c: int|
        0 <= c < store.columns.len() ==> (#[trigger] store.columns[c]).samples.len() == row_count(
            store,
        )
}

/// The store is one table: its columns are equally long and carry the same
/// times.
pub open spec fn is_table(store: StoreView) -> bool {
    even(store) && aligned(store)
}

/// Saving and loading again gives the same table. The rows that a store
/// which is one table is saved in are taken without an error, whatever store
/// takes them; the columns that come of them have the names under which they
/// were saved, as many samples as they had, the same values in the same
/// order, and the times that were saved: those of the connection, or those
/// since the Unix epoch where these were asked for.
pub proof fn lemma_export_import_round_trip(
    store: StoreView,
    names: Seq<Seq<char>>,
    absolute: bool,
    target: StoreView,
)
    requires
        store_wf(store),
        is_table(store),
    ensures
        ({
            let rows = export_rows(store, names, absolute);
            let back = imported(target, rows);
            &&& first_error(rows, rows.len() as int) is None
            &&& back.loaded_from_file
            &&& back.columns.len() == store.columns.len()
            &&& forall|c: int|
                0 <= c < store.columns.len() ==> {
                    &&& (#[trigger] back.columns[c]).name == export_name(names, store.columns, c)
                    &&& back.columns[c].samples.len() == store.columns[c].samples.len()
                }
            &&& forall|c: int, j: int|
                #![trigger back.columns[c].samples[j]]
                0 <= c < store.columns.len() && 0 <= j < store.columns[c].samples.len() ==> {
                    &&& back.columns[c].samples[j].value == store.columns[c].samples[j].value
                    &&& absolute ==> back.columns[c].samples[j].absolute_time
                        == store.columns[c].samples[j].absolute_time
                    &&& !absolute ==> back.columns[c].samples[j].time
                        == store.columns[c].samples[j].time
                }
        }),
{
    let rows = export_rows(store, names, absolute);
    let back = imported(target, rows);
    lemma_export_shape(store, names, absolute);
    lemma_saved_rows_are_in_order(store, names, absolute);
    assert forall|c: int| 0 <= c < store.columns.len() implies (#[trigger] back.columns[c]).name
        == export_name(names, store.columns, c) && back.columns[c].samples.len()
        == store.columns[c].samples.len() by {
        assert(back.columns[c] == imported_column(rows, c));
    }
    assert forall|c: int, j: int|
        #![trigger back.columns[c].samples[j]]
        0 <= c < store.columns.len() && 0 <= j < store.columns[c].samples.len() implies {
        &&& back.columns[c].samples[j].value == store.columns[c].samples[j].value
        &&& absolute ==> back.columns[c].samples[j].absolute_time
            == store.columns[c].samples[j].absolute_time
        &&& !absolute ==> back.columns[c].samples[j].time == store.columns[c].samples[j].time
    } by {
        lemma_round_trip_sample(store, names, absolute, target, c, j);
    }
}

/// One sample of a table after saving and loading.
proof fn lemma_round_trip_sample(
    store: StoreView,
    names: Seq<Seq<char>>,
    absolute: bool,
    target: StoreView,
    c: int,
    j: int,
)
    requires
        store_wf(store),
        aligned(store),
        even(store),
        0 <= c < store.columns.len(),
        0 <= j < store.columns[c].samples.len(),
    ensures
        ({
            let back = imported(target, export_rows(store, names, absolute));
            &&& back.columns[c].samples[j].value == store.columns[c].samples[j].value
            &&& absolute ==> back.columns[c].samples[j].absolute_time
                == store.columns[c].samples[j].absolute_time
            &&& !absolute ==> back.columns[c].samples[j].time == store.columns[c].samples[j].time
        }),
{
    let rows = export_rows(store, names, absolute);
    let back = imported(target, rows);
    lemma_export_shape(store, names, absolute);
    lemma_saved_rows_are_in_order(store, names, absolute);
    assert(store.columns[c].samples.len() == row_count(store));
    assert(back.columns[c] == imported_column(rows, c));
    assert(back.columns[c].samples[j] == imported_sample(rows, j + 1, c));
    let row = rows[j + 1];
    assert(row == data_row(store, j, absolute));
    assert(row[c + 1] == value_cell(store.columns[c], j));
    assert(cell_time(row[0]) == Some(saved_time(store, j, absolute)));
    let cell = store.columns[c].samples[j];
    assert(cell.time == store.columns[0].samples[j].time);
    assert(cell.absolute_time == store.columns[0].samples[j].absolute_time);
}

} // verus!

verus! {

/// The ending of the names of data files.
pub open spec fn csv_ending() -> Seq<char> {
    seq!['.', 'c', 's', 'v']
}

/// `s` starts with the ending of data files.
pub open spec fn at_csv_ending(s: Seq<char>) -> bool {
    s.len() >= 4 && s.take(4) == csv_ending()
}

/// `s` without any `.csv` in it: the text is read from the left, and each
/// `.csv` that is met is left out.
pub open spec fn without_csv(s: Seq<char>) -> Seq<char>
    decreases s.len(),
{
    if s.len() == 0 {
        s
    } else if at_csv_ending(s) {
        without_csv(s.skip(4))
    } else {
        seq![s[0]] + without_csv(s.drop_first())
    }
}

/// The name of the traffic file that goes with the data file named
/// `file_name`: that name without `.csv`, and `raw.csv` behind it.
pub fn raw_file_name(file_name: &str) -> (name: String)
    ensures
        name@ == without_csv(file_name@) + "raw.csv"@,
{
    let chars = chars_of(file_name);
    let mut name = String::new();
    let mut i: usize = 0;
    proof {
        assert(chars@.skip(0) =~= chars@);
        assert(name@ + without_csv(chars@) =~= without_csv(chars@));
    }
    while i < chars.len()
        invariant
            i <= chars.len(),
            without_csv(chars@) == name@ + without_csv(chars@.skip(i as int)),
        decreases chars.len() - i,
    {
        let ghost rest = chars@.skip(i as int);
        if chars.len() - i >= 4 && chars[i] == '.' && chars[i + 1] == 'c' && chars[i + 2] == 's'
            && chars[i + 3] == 'v' {
            proof {
                assert(rest.take(4) =~= csv_ending());
                assert(rest.skip(4) =~= chars@.skip(i + 4));
            }
            i += 4;
        } else {
            proof {
                if rest.len() >= 4 {
                    assert(rest.take(4)[0] == rest[0]);
                    assert(rest.take(4)[1] == rest[1]);
                    assert(rest.take(4)[2] == rest[2]);
                    assert(rest.take(4)[3] == rest[3]);
                }
                assert(!at_csv_ending(rest));
                assert(rest.drop_first() =~= chars@.skip(i + 1));
                assert(name@.push(chars@[i as int]) + without_csv(chars@.skip(i + 1)) =~= name@
                    + (seq![rest[0]] + without_csv(rest.drop_first())));
            }
            push_char(&mut name, chars[i]);
            i += 1;
        }
    }
    proof {
        assert(without_csv(chars@.skip(i as int)) =~= Seq::<char>::empty());
        assert(name@ + Seq::<char>::empty() =~= name@);
    }
    name.append("raw.csv");
    name
}

/// Whether a file with this extension can be loaded: only `csv` can.
pub fn is_supported(extension: &str) -> (supported: bool)
    ensures
        supported == (extension@ == "csv"@),
{
    let chars = chars_of(extension);
    proof {
        reveal_strlit("csv");
        if chars@.len() == 3 && chars@[0] == 'c' && chars@[1] == 's' && chars@[2] == 'v' {
            assert(chars@ =~= "csv"@);
        }
    }
    chars.len() == 3 && chars[0] == 'c' && chars[1] == 's' && chars[2] == 'v'
}

} // verus!

verus! {

/// A store whose columns all belong to one stream is one table. Such is the
/// store that took a file, and the store that took records without
/// identifiers only.
pub proof fn lemma_one_stream_is_table(store: StoreView)
    requires
        store_wf(store),
        store.streams.len() <= 1,
    ensures
        is_table(store),
{
    if store.streams.len() == 1 {
        let stream = store.streams[0];
        assert(store.streams.take(0) =~= Seq::empty());
        assert(store.streams.drop_last() =~= Seq::empty());
        assert(stream.start == 0);
        assert(total_width(store.streams) == stream.width);
        assert forall|c: int| 0 <= c < store.columns.len() implies stamps(
            (#[trigger] store.columns[c]).samples,
        ) == stamps(store.columns[0].samples) by {
            let s = store.streams[0];
        }
        assert forall|c: int| 0 <= c < store.columns.len() implies (
        #[trigger] store.columns[c]).samples.len() == row_count(store) by {
            assert(stamps(store.columns[c].samples).len() == stamps(
                store.columns[0].samples,
            ).len());
        }
        assert forall|c: int, j: int|
            #![trigger store.columns[c].samples[j]]
            0 <= c < store.columns.len() && 0 <= j < row_count(store) implies {
            &&& store.columns[c].samples.len() == row_count(store)
            &&& store.columns[c].samples[j].time == store.columns[0].samples[j].time
            &&& store.columns[c].samples[j].absolute_time
                == store.columns[0].samples[j].absolute_time
        } by {
            assert(stamps(store.columns[c].samples) == stamps(store.columns[0].samples));
            assert(stamps(store.columns[c].samples)[j] == (
                store.columns[c].samples[j].time,
                store.columns[c].samples[j].absolute_time,
            ));
            assert(stamps(store.columns[0].samples)[j] == (
                store.columns[0].samples[j].time,
                store.columns[0].samples[j].absolute_time,
            ));
        }
    } else {
        assert(store.columns.len() == 0);
    }
}

} // verus!
