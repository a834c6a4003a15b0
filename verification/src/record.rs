use vstd::prelude::*;
use std::path::PathBuf;
use crate::decimal::{decimal, decimal_string};
use crate::io::{csv_text, encode_rows, row_views, ExportError};
use crate::number::Number;
use crate::schema::number_views;
use crate::store::text_views;

verus! {

/// `PathBuf::new`: an empty path. Nothing is stated of it: the library
/// carries paths and never looks into them.
pub assume_specification[ PathBuf::new ]() -> (path: PathBuf);

/// How the recorder writes, and whether it does.
#[derive(Debug)]
pub struct RecordOptions {
    pub enable: bool,
    pub record_path: PathBuf,
    /// Rows end with a carriage return and a line feed, not a line feed
    /// alone.
    pub windows_style_line_endings: bool,
    /// The file starts with a row of names.
    pub write_header_line: bool,
    /// Each row starts with the time of its sample.
    pub insert_timestamp: bool,
}

impl Default for RecordOptions {
    fn default() -> (options: RecordOptions)
        ensures
            !options.enable,
            !options.windows_style_line_endings,
            options.write_header_line,
            options.insert_timestamp,
    {
        RecordOptions {
            enable: false,
            record_path: PathBuf::new(),
            windows_style_line_endings: false,
            write_header_line: true,
            insert_timestamp: true,
        }
    }
}

/// The values of one record that went into the columns, with the time since
/// the Unix epoch at which they arrived.
#[derive(Debug)]
pub struct RecordData {
    pub time: u128,
    pub datas: Vec<Number>,
}

/// The first row of a recording: the word `Timestamp`, where the rows start
/// with the time, and the names of the columns.
pub open spec fn headers_of(names: Seq<Seq<char>>, insert_timestamp: bool) -> Seq<Seq<char>> {
    if insert_timestamp {
        seq!["Timestamp"@] + names
    } else {
        names
    }
}

/// The row of a recording for one sample: its time, where the rows start
/// with the time, and its values.
pub open spec fn record_row(
    time: u128,
    values: Seq<Seq<char>>,
    insert_timestamp: bool,
) -> Seq<Seq<char>> {
    if insert_timestamp {
        seq![decimal(time as nat)] + values
    } else {
        values
    }
}

/// The first row of a recording of columns with these names.
pub fn get_headers(names: &Vec<String>, record_options: &RecordOptions) -> (headers: Vec<String>)
    ensures
        text_views(headers@) == headers_of(text_views(names@), record_options.insert_timestamp),
{
    let mut headers: Vec<String> = Vec::new();
    if record_options.insert_timestamp {
        headers.push("Timestamp".to_owned());
    }
    let ghost start = text_views(headers@);
    let mut c: usize = 0;
    proof {
        assert(start =~= if record_options.insert_timestamp {
            seq!["Timestamp"@]
        } else {
            Seq::empty()
        });
        assert(text_views(headers@) =~= start + text_views(names@).take(0));
    }
    while c < names.len()
        invariant
            c <= names@.len(),
            text_views(headers@) == start + text_views(names@).take(c as int),
        decreases names.len() - c,
    {
        let name = names[c].clone();
        let ghost before = text_views(headers@);
        headers.push(name);
        proof {
            assert(text_views(headers@) =~= before.push(name@));
            assert(text_views(headers@) =~= start + text_views(names@).take(c + 1));
        }
        c += 1;
    }
    proof {
        assert(text_views(names@).take(c as int) =~= text_views(names@));
        assert(Seq::<Seq<char>>::empty() + text_views(names@) =~= text_views(names@));
    }
    headers
}

/// The row of a recording for `data`.
pub fn get_row(data: &RecordData, record_options: &RecordOptions) -> (row: Vec<String>)
    ensures
        text_views(row@) == record_row(
            data.time,
            number_views(data.datas@),
            record_options.insert_timestamp,
        ),
{
    let mut row: Vec<String> = Vec::new();
    if record_options.insert_timestamp {
        row.push(decimal_string(data.time));
    }
    let ghost start = text_views(row@);
    let mut c: usize = 0;
    proof {
        assert(start =~= if record_options.insert_timestamp {
            seq![decimal(data.time as nat)]
        } else {
            Seq::empty()
        });
        assert(text_views(row@) =~= start + number_views(data.datas@).take(0));
    }
    while c < data.datas.len()
        invariant
            c <= data.datas@.len(),
            text_views(row@) == start + number_views(data.datas@).take(c as int),
        decreases data.datas.len() - c,
    {
        let cell = data.datas[c].as_str().to_owned();
        let ghost before = text_views(row@);
        row.push(cell);
        proof {
            assert(text_views(row@) =~= before.push(cell@));
            assert(text_views(row@) =~= start + number_views(data.datas@).take(c + 1));
        }
        c += 1;
    }
    proof {
        assert(number_views(data.datas@).take(c as int) =~= number_views(data.datas@));
        assert(Seq::<Seq<char>>::empty() + number_views(data.datas@) =~= number_views(
            data.datas@,
        ));
    }
    row
}

/// What the owner of the recording's file does next.
#[derive(Clone, Copy, Debug, PartialEq, Eq, Structural)]
pub enum RecorderStep {
    /// Recording is off: close the file if it is open, and throw away one
    /// sample that waits.
    Discard,
    /// Recording was turned on: delete the file at the path, make it anew,
    /// and report how that went.
    Open,
    /// The file is open: write the row of one sample that waits, if there
    /// is one, and flush.
    Record,
}

/// Decides what happens to the file of a recording.
#[derive(Debug)]
pub struct Recorder {
    options: RecordOptions,
    writing: bool,
}

/// What the recorder holds.
pub struct RecorderView {
    pub enable: bool,
    pub windows_style_line_endings: bool,
    pub write_header_line: bool,
    pub insert_timestamp: bool,
    /// The file is open.
    pub writing: bool,
}

impl View for Recorder {
    type V = RecorderView;

    closed spec fn view(&self) -> RecorderView {
        RecorderView {
            enable: self.options.enable,
            windows_style_line_endings: self.options.windows_style_line_endings,
            write_header_line: self.options.write_header_line,
            insert_timestamp: self.options.insert_timestamp,
            writing: self.writing,
        }
    }
}

/// The step that follows from what the recorder holds.
pub open spec fn recorder_step(recorder: RecorderView) -> RecorderStep {
    if !recorder.enable {
        RecorderStep::Discard
    } else if recorder.writing {
        RecorderStep::Record
    } else {
        RecorderStep::Open
    }
}

impl Recorder {
    /// A recorder that is off, with the default options.
    pub fn new() -> (recorder: Recorder)
        ensures
            recorder@ == (RecorderView {
                enable: false,
                windows_style_line_endings: false,
                write_header_line: true,
                insert_timestamp: true,
                writing: false,
            }),
    {
        Recorder { options: RecordOptions::default(), writing: false }
    }

    pub fn options(&self) -> (options: &RecordOptions)
        ensures
            options.enable == self@.enable,
            options.windows_style_line_endings == self@.windows_style_line_endings,
            options.write_header_line == self@.write_header_line,
            options.insert_timestamp == self@.insert_timestamp,
    {
        &self.options
    }

    /// Replaces the options as a whole. An open file stays open.
    pub fn configure(&mut self, options: RecordOptions)
        ensures
            final(self)@ == (RecorderView {
                enable: options.enable,
                windows_style_line_endings: options.windows_style_line_endings,
                write_header_line: options.write_header_line,
                insert_timestamp: options.insert_timestamp,
                writing: old(self)@.writing,
            }),
    {
        self.options = options;
    }

    /// Decides the next step. While recording is off, no file is open.
    pub fn plan(&mut self) -> (step: RecorderStep)
        ensures
            step == recorder_step(old(self)@),
            final(self)@ == (RecorderView {
                writing: old(self)@.writing && old(self)@.enable,
                ..old(self)@
            }),
    {
        if !self.options.enable {
            self.writing = false;
            RecorderStep::Discard
        } else if self.writing {
            RecorderStep::Record
        } else {
            RecorderStep::Open
        }
    }

    /// The file was made: it is open from now on. Hands out the bytes of
    /// the first row, for columns with these names, where the options ask for
    /// one.
    pub fn opened(&mut self, names: &Vec<String>) -> (header: Option<Vec<u8>>)
        ensures
            final(self)@ == (RecorderView { writing: true, ..old(self)@ }),
            match header {
                Some(bytes) => old(self)@.write_header_line && bytes@ == csv_text(
                    seq![headers_of(text_views(names@), old(self)@.insert_timestamp)],
                    old(self)@.windows_style_line_endings,
                ),
                None => !old(self)@.write_header_line,
            },
    {
        self.writing = true;
        if !self.options.write_header_line {
            return None;
        }
        let mut rows: Vec<Vec<String>> = Vec::new();
        rows.push(get_headers(names, &self.options));
        proof {
            assert(row_views(rows@) =~= seq![
                headers_of(text_views(names@), old(self)@.insert_timestamp),
            ]);
        }
        match encode_rows(&rows, self.options.windows_style_line_endings) {
            Ok(bytes) => Some(bytes),
            Err(_) => None,
        }
    }

    /// The file could not be made or written: recording is off, and no file
    /// is open.
    pub fn failed(&mut self)
        ensures
            final(self)@ == (RecorderView { enable: false, writing: false, ..old(self)@ }),
    {
        self.options.enable = false;
        self.writing = false;
    }

    /// The bytes of the row for `sample`. One row by itself is never
    /// refused.
    pub fn encode(&self, sample: &RecordData) -> (r: Result<Vec<u8>, ExportError>)
        ensures
            r is Ok,
            r.unwrap()@ == csv_text(
                seq![record_row(sample.time, number_views(sample.datas@), self@.insert_timestamp)],
                self@.windows_style_line_endings,
            ),
    {
        let mut rows: Vec<Vec<String>> = Vec::new();
        rows.push(get_row(sample, &self.options));
        proof {
            assert(row_views(rows@) =~= seq![
                record_row(sample.time, number_views(sample.datas@), self@.insert_timestamp),
            ]);
        }
        match encode_rows(&rows, self.options.windows_style_line_endings) {
            Ok(bytes) => Ok(bytes),
            Err(_) => Err(ExportError::Writer),
        }
    }
}

} // verus!
