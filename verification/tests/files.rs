use serial_monitor::data::{Column, Packet, SerialDirection};
use serial_monitor::io::{
    data_rows, load_rows, open_from_csv, save_raw, save_to_csv, traffic_rows, FileOptions,
    ImportError,
};
use serial_monitor::schema::Record;
use serial_monitor::store::{DataContainer, Outcome};
use std::path::PathBuf;

fn options(absolute: bool, raw: bool) -> FileOptions {
    FileOptions {
        file_path: PathBuf::from("data.csv"),
        save_absolute_time: absolute,
        save_raw_traffic: raw,
        names: Vec::new(),
    }
}

fn values_of(column: &Column) -> Vec<f32> {
    (0..column.len())
        .map(|i| column.get(i).unwrap().value.as_str().parse::<f32>().unwrap())
        .collect()
}

fn times_of(column: &Column) -> Vec<u128> {
    (0..column.len()).map(|i| column.get(i).unwrap().time).collect()
}

fn absolute_times_of(column: &Column) -> Vec<u128> {
    (0..column.len()).map(|i| column.get(i).unwrap().absolute_time).collect()
}

fn sample_store() -> DataContainer {
    let mut store = DataContainer::new(100, 100);
    store.absorb(Record::parse("1.5,-2"), 10, 1_700_000_000_010);
    store.absorb(Record::parse("2.5,3e2"), 20, 1_700_000_000_020);
    store.absorb(Record::parse("3.5,0.25"), 35, 1_700_000_000_035);
    store
}

fn rows(text: &[&[&str]]) -> Vec<Vec<String>> {
    text.iter().map(|row| row.iter().map(|cell| cell.to_string()).collect()).collect()
}

#[test]
fn export_writes_header_and_rows() {
    let saved = save_to_csv(&sample_store(), &options(false, false)).unwrap();
    assert_eq!(
        String::from_utf8(saved.data).unwrap(),
        "Time [ms],Column 0,Column 1\n10,1.5,-2\n20,2.5,3e2\n35,3.5,0.25\n"
    );
    assert!(saved.raw.is_none());
}

#[test]
fn export_with_absolute_time() {
    let saved = save_to_csv(&sample_store(), &options(true, false)).unwrap();
    assert_eq!(
        String::from_utf8(saved.data).unwrap(),
        "Abs Time [ms],Column 0,Column 1\n1700000000010,1.5,-2\n1700000000020,2.5,3e2\n1700000000035,3.5,0.25\n"
    );
}

#[test]
fn export_uses_the_given_names() {
    let mut csv_options = options(false, false);
    csv_options.names = vec!["volts".to_string()];
    let rows = data_rows(&sample_store(), &csv_options);
    assert_eq!(rows[0], vec!["Time [ms]", "volts", "Column 1"]);
    assert_eq!(rows[1], vec!["10", "1.5", "-2"]);
    assert_eq!(rows.len(), 4);
}

#[test]
fn export_of_an_empty_store_is_a_header() {
    let saved = save_to_csv(&DataContainer::new(10, 10), &options(false, false)).unwrap();
    assert_eq!(String::from_utf8(saved.data).unwrap(), "Time [ms]\n");
}

#[test]
fn shorter_columns_leave_empty_cells() {
    let mut store = DataContainer::new(100, 100);
    store.absorb(Record::parse("A:1"), 1, 1);
    store.absorb(Record::parse("A:2"), 2, 2);
    store.absorb(Record::parse("B:7"), 3, 3);
    let rows = data_rows(&store, &options(false, false));
    assert_eq!(rows[1], vec!["1", "1", "7"]);
    assert_eq!(rows[2], vec!["2", "2", ""]);
}

#[test]
fn export_quotes_what_the_dialect_requires() {
    let mut store = DataContainer::new(100, 100);
    store.set_labels(vec!["a,b".to_string()]);
    store.absorb(Record::parse("1"), 1, 1);
    let saved = save_to_csv(&store, &options(false, false)).unwrap();
    assert_eq!(String::from_utf8(saved.data).unwrap(), "Time [ms],\"a,b\"\n1,1\n");
}

fn logged_store() -> DataContainer {
    let mut store = DataContainer::new(100, 100);
    store.log_packet(&Packet {
        relative_time: 5,
        absolute_time: 1005,
        direction: SerialDirection::Receive,
        payload: "1,2".to_string(),
    });
    store.log_packet(&Packet {
        relative_time: 9,
        absolute_time: 1009,
        direction: SerialDirection::Send,
        payload: "say \"hi\"".to_string(),
    });
    store
}

#[test]
fn raw_traffic_file() {
    let bytes = save_raw(&logged_store()).unwrap();
    assert_eq!(
        String::from_utf8(bytes).unwrap(),
        "Time [ms],Abs Time [ms],Raw Traffic\n5,1005,\"1,2\"\n9,1009,\"say \"\"hi\"\"\"\n"
    );
    let rows = traffic_rows(&logged_store());
    assert_eq!(rows[2], vec!["9", "1009", "say \"hi\""]);
}

#[test]
fn raw_traffic_goes_along_when_asked() {
    let saved = save_to_csv(&logged_store(), &options(false, true)).unwrap();
    assert_eq!(saved.raw.unwrap(), save_raw(&logged_store()).unwrap());
}

#[test]
fn import_reads_header_and_rows() {
    let mut store = sample_store();
    let mut csv_options = options(false, false);
    let content = b"Time [ms],a,b\n1,1.5,2\n2,2.5,3\n";
    assert_eq!(open_from_csv(&mut store, &mut csv_options, content), Ok(()));
    assert_eq!(csv_options.names, vec!["a", "b"]);
    assert!(store.loaded_from_file());
    assert_eq!(store.columns().len(), 2);
    assert_eq!(store.columns()[0].name(), "a");
    assert_eq!(store.columns()[1].name(), "b");
    assert_eq!(values_of(&store.columns()[0]), vec![1.5, 2.5]);
    assert_eq!(values_of(&store.columns()[1]), vec![2.0, 3.0]);
    assert_eq!(times_of(&store.columns()[1]), vec![1, 2]);
    assert_eq!(absolute_times_of(&store.columns()[1]), vec![0, 0]);
    assert_eq!(store.raw_traffic().len(), 0);
}

#[test]
fn import_is_not_bounded() {
    let mut store = DataContainer::new(1, 1);
    let mut csv_options = options(false, false);
    let content = b"Time [ms],a\n1,1\n2,2\n3,3\n";
    assert_eq!(open_from_csv(&mut store, &mut csv_options, content), Ok(()));
    assert_eq!(values_of(&store.columns()[0]), vec![1.0, 2.0, 3.0]);
}

#[test]
fn loaded_store_takes_nothing_from_the_line() {
    let mut store = DataContainer::new(10, 10);
    let mut csv_options = options(false, false);
    open_from_csv(&mut store, &mut csv_options, b"Time [ms],a\n1,1\n").unwrap();
    assert_eq!(store.absorb(Record::parse("5"), 9, 9), Outcome::Paused);
    assert_eq!(values_of(&store.columns()[0]), vec![1.0]);
    store.clear();
    assert_eq!(store.absorb(Record::parse("5"), 9, 9), Outcome::Rebuilt);
}

#[test]
fn import_of_nothing_gives_no_columns() {
    let mut store = sample_store();
    let mut csv_options = options(false, false);
    assert_eq!(open_from_csv(&mut store, &mut csv_options, b""), Ok(()));
    assert!(store.loaded_from_file());
    assert_eq!(store.columns().len(), 0);
    assert!(csv_options.names.is_empty());
}

fn assert_untouched(store: &DataContainer, csv_options: &FileOptions) {
    assert!(!store.loaded_from_file());
    assert_eq!(store.columns().len(), 2);
    assert_eq!(values_of(&store.columns()[0]), vec![1.5, 2.5, 3.5]);
    assert_eq!(csv_options.names, vec!["kept"]);
}

fn failing_import(content: &[u8]) -> ImportError {
    let mut store = sample_store();
    let mut csv_options = options(false, false);
    csv_options.names = vec!["kept".to_string()];
    let error = open_from_csv(&mut store, &mut csv_options, content).unwrap_err();
    assert_untouched(&store, &csv_options);
    error
}

#[test]
fn import_rejects_a_row_of_another_length() {
    assert_eq!(
        failing_import(b"Time [ms],a,b\n1,1,2\n2,3\n3,4,5\n"),
        ImportError::ColumnCount { row: 2 }
    );
    assert_eq!(
        failing_import(b"Time [ms],a\n1,1,2\n"),
        ImportError::ColumnCount { row: 1 }
    );
}

#[test]
fn import_rejects_a_bad_time() {
    assert_eq!(failing_import(b"Time [ms],a\n1,1\nx,2\n"), ImportError::Time { row: 2 });
    assert_eq!(failing_import(b"Time [ms],a\n1.5,1\n"), ImportError::Time { row: 1 });
    assert_eq!(failing_import(b"Time [ms],a\n-1,1\n"), ImportError::Time { row: 1 });
    assert_eq!(
        failing_import(b"Time [ms],a\n340282366920938463463374607431768211456,1\n"),
        ImportError::Time { row: 1 }
    );
}

#[test]
fn import_takes_the_largest_time() {
    let mut store = DataContainer::new(10, 10);
    let mut csv_options = options(false, false);
    let content = b"Time [ms],a\n340282366920938463463374607431768211455,1\n";
    assert_eq!(open_from_csv(&mut store, &mut csv_options, content), Ok(()));
    assert_eq!(times_of(&store.columns()[0]), vec![u128::MAX]);
}

#[test]
fn import_rejects_a_bad_value() {
    assert_eq!(
        failing_import(b"Time [ms],a,b\n1,1,2\n2,3,x\n"),
        ImportError::Value { row: 2, column: 2 }
    );
    assert_eq!(
        failing_import(b"Time [ms],a,b\n1,,2\n"),
        ImportError::Value { row: 1, column: 1 }
    );
    assert_eq!(
        failing_import(b"Time [ms],a,b\n1, 1,y\n"),
        ImportError::Value { row: 1, column: 1 }
    );
}

#[test]
fn import_reports_the_first_bad_row() {
    assert_eq!(
        failing_import(b"Time [ms],a\n1,1\n2,x\n3\n"),
        ImportError::Value { row: 2, column: 1 }
    );
    assert_eq!(failing_import(b"Time [ms],a\nt,x\n"), ImportError::Time { row: 1 });
}

#[test]
fn import_rejects_what_is_no_text() {
    assert_eq!(failing_import(b"Time [ms],a\n1,\xff\n"), ImportError::Malformed);
}

#[test]
fn rows_can_be_loaded_directly() {
    let mut store = DataContainer::new(10, 10);
    let mut csv_options = options(false, false);
    let file = rows(&[&["Abs Time [ms]", "x"], &["7", "1"], &["8", "2"]]);
    assert_eq!(load_rows(&mut store, &mut csv_options, &file), Ok(()));
    assert_eq!(absolute_times_of(&store.columns()[0]), vec![7, 8]);
    assert_eq!(times_of(&store.columns()[0]), vec![0, 0]);
    let file = rows(&[&["Time [ms]", "x"], &["7"]]);
    assert_eq!(
        load_rows(&mut store, &mut csv_options, &file),
        Err(ImportError::ColumnCount { row: 1 })
    );
    assert_eq!(absolute_times_of(&store.columns()[0]), vec![7, 8]);
}

fn round_trip(absolute: bool) {
    let store = sample_store();
    let mut csv_options = options(absolute, false);
    csv_options.names = vec!["first".to_string(), "second".to_string()];
    let saved = save_to_csv(&store, &csv_options).unwrap();
    let mut back = DataContainer::new(100, 100);
    let mut read_options = options(false, false);
    assert_eq!(open_from_csv(&mut back, &mut read_options, &saved.data), Ok(()));
    assert_eq!(read_options.names, vec!["first", "second"]);
    assert_eq!(back.columns().len(), store.columns().len());
    for (after, before) in back.columns().iter().zip(store.columns().iter()) {
        assert_eq!(values_of(after), values_of(before));
        assert_eq!(after.len(), before.len());
        for i in 0..before.len() {
            assert_eq!(
                after.get(i).unwrap().value.as_str(),
                before.get(i).unwrap().value.as_str()
            );
        }
        if absolute {
            assert_eq!(absolute_times_of(after), absolute_times_of(before));
        } else {
            assert_eq!(times_of(after), times_of(before));
        }
    }
    assert_eq!(back.columns()[0].name(), "first");
    assert_eq!(back.columns()[1].name(), "second");
}

#[test]
fn export_import_round_trip_relative() {
    round_trip(false);
}

#[test]
fn export_import_round_trip_absolute() {
    round_trip(true);
}
