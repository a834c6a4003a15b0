//! The data path of a serial monitor: from the bytes of a serial device to
//! named series of numbers, with their times, that can be shown, recorded and
//! saved.
//!
//! - `framer` cuts the bytes of the reads into lines.
//! - `serial` decides when a connection is made and when and why it ends,
//!   and stamps what goes over the line.
//! - `schema` reads a line as a record: the values, and the stream that
//!   they belong to.
//! - `store` holds the columns and the log of the traffic within their
//!   bounds, and takes the records in.
//! - `ingest` is the worker around the store: it says what each packet gives
//!   to the console, the recorder and the display.
//! - `record` decides what happens to the file of a recording.
//! - `io` turns the store into the rows of a CSV file and back.

pub mod cli;
pub mod crc;
pub mod custom_highlighter;
pub mod data;
pub mod decimal;
pub mod framer;
pub mod ingest;
pub mod io;
pub mod number;
pub mod record;
pub mod schema;
pub mod serial;
pub mod store;
pub mod text;
pub mod utils;
