use serial_monitor::data::Column;
use serial_monitor::number::Number;
use serial_monitor::schema::Record;
use serial_monitor::store::{DataContainer, Outcome, FAILURE_THRESHOLD};

fn values_of(column: &Column) -> Vec<f32> {
    (0..column.len())
        .map(|i| column.get(i).unwrap().value.as_str().parse::<f32>().unwrap())
        .collect()
}

fn texts_of(record: &Record) -> Vec<String> {
    record.values().iter().map(|n| n.as_str().to_string()).collect()
}

fn feed(store: &mut DataContainer, payload: &str, time: u128) -> Outcome {
    store.absorb(Record::parse(payload), time, 1_000_000 + time)
}

#[test]
fn numbers_follow_the_grammar() {
    for good in [
        "1", "-1", "+1", "1.5", ".5", "5.", "1e3", "1E3", "1e+3", "1.5e-3", "1.e5", "inf", "-inf",
        "+Infinity", "NaN", "nan", "007", "0.000",
    ] {
        assert!(Number::parse(good).is_some(), "{:?}", good);
        assert!(good.parse::<f32>().is_ok(), "{:?}", good);
    }
    for bad in [
        "", " ", ".", "+", "-", "e5", ".e5", "1e", "1e+", "1.5.2", "1,5", "abc", "1a", " 1", "1 ",
        "in", "infinit", "nane", "0x10", "--1", "1e5.5",
    ] {
        assert!(Number::parse(bad).is_none(), "{:?}", bad);
        assert!(bad.parse::<f32>().is_err(), "{:?}", bad);
    }
}

#[test]
fn number_keeps_its_text() {
    assert_eq!(Number::parse("1.50").unwrap().as_str(), "1.50");
    assert_eq!(Number::parse("-2e3").unwrap().clone().as_str(), "-2e3");
}

#[test]
fn record_without_identifier() {
    let record = Record::parse("1.5, 2 ,3e2");
    assert_eq!(record.id(), "");
    assert_eq!(texts_of(&record), vec!["1.5", "2", "3e2"]);
}

#[test]
fn both_separators_part_the_fields() {
    let record = Record::parse("1:2,3:4");
    assert_eq!(record.id(), "");
    assert_eq!(texts_of(&record), vec!["1", "2", "3", "4"]);
}

#[test]
fn record_with_identifier() {
    let record = Record::parse(" temp : 21.5 , 40 ");
    assert_eq!(record.id(), "temp");
    assert_eq!(texts_of(&record), vec!["21.5", "40"]);
}

#[test]
fn tokens_that_are_no_numbers_are_left_out() {
    let record = Record::parse("1,x,2,,3");
    assert_eq!(record.id(), "");
    assert_eq!(texts_of(&record), vec!["1", "2", "3"]);
    let record = Record::parse("A:1,x,2");
    assert_eq!(record.id(), "A");
    assert_eq!(texts_of(&record), vec!["1", "2"]);
}

#[test]
fn payload_without_numbers_names_no_stream() {
    for payload in ["garbage", "", ",", "a:b", " : ", "booting..."] {
        let record = Record::parse(payload);
        assert_eq!(record.id(), "", "{:?}", payload);
        assert!(record.values().is_empty(), "{:?}", payload);
    }
}

#[test]
fn empty_first_token_names_no_stream() {
    let record = Record::parse(":1,2");
    assert_eq!(record.id(), "");
    assert_eq!(texts_of(&record), vec!["1", "2"]);
}

#[test]
fn tagged_without_values_is_flat() {
    let record = Record::tagged("A".to_string(), Vec::new());
    assert_eq!(record.id(), "");
    let record = Record::tagged("A".to_string(), vec![Number::parse("1").unwrap()]);
    assert_eq!(record.id(), "A");
    let record = Record::flat(vec![Number::parse("1").unwrap()]);
    assert_eq!(record.id(), "");
    assert_eq!(record.values().len(), 1);
}

#[test]
fn first_record_lays_out_the_columns() {
    let mut store = DataContainer::new(100, 100);
    assert_eq!(feed(&mut store, "1,2", 5), Outcome::Rebuilt);
    assert_eq!(store.columns().len(), 2);
    assert_eq!(store.columns()[0].name(), "Column 0");
    assert_eq!(store.columns()[1].name(), "Column 1");
    assert_eq!(values_of(&store.columns()[0]), vec![1.0]);
    assert_eq!(values_of(&store.columns()[1]), vec![2.0]);
    let sample = store.columns()[0].get(0).unwrap();
    assert_eq!(sample.time, 5);
    assert_eq!(sample.absolute_time, 1_000_005);
}

#[test]
fn payload_without_numbers_leaves_no_column() {
    let mut store = DataContainer::new(100, 100);
    assert_eq!(feed(&mut store, "hello", 0), Outcome::Rebuilt);
    assert_eq!(store.columns().len(), 0);
    assert_eq!(store.failures(), 0);
}

#[test]
fn wrong_count_is_dropped_and_counted() {
    let mut store = DataContainer::new(100, 100);
    feed(&mut store, "1,2", 0);
    assert_eq!(feed(&mut store, "1,2,3", 1), Outcome::Missed);
    assert_eq!(feed(&mut store, "1", 2), Outcome::Missed);
    assert_eq!(store.failures(), 2);
    assert_eq!(feed(&mut store, "3,4", 3), Outcome::Appended);
    assert_eq!(store.failures(), 0);
    assert_eq!(values_of(&store.columns()[0]), vec![1.0, 3.0]);
    assert_eq!(values_of(&store.columns()[1]), vec![2.0, 4.0]);
}

#[test]
fn ten_failures_do_not_reset() {
    let mut store = DataContainer::new(100, 100);
    feed(&mut store, "1,2", 0);
    for i in 0..FAILURE_THRESHOLD {
        assert_eq!(feed(&mut store, "9", i as u128), Outcome::Missed);
    }
    assert_eq!(store.failures(), 10);
    assert_eq!(feed(&mut store, "3,4", 20), Outcome::Appended);
    assert_eq!(store.columns().len(), 2);
    assert_eq!(values_of(&store.columns()[0]), vec![1.0, 3.0]);
}

#[test]
fn eleven_failures_reset_at_the_next_record() {
    let mut store = DataContainer::new(100, 100);
    feed(&mut store, "1,2", 0);
    for i in 0..11 {
        assert_eq!(feed(&mut store, "garbage", i), Outcome::Missed);
        assert_eq!(store.columns().len(), 2);
    }
    assert_eq!(store.failures(), 11);
    assert_eq!(feed(&mut store, "7,8,9", 30), Outcome::Rebuilt);
    assert_eq!(store.failures(), 0);
    assert_eq!(store.columns().len(), 3);
    assert_eq!(values_of(&store.columns()[2]), vec![9.0]);
}

#[test]
fn schema_resync() {
    let mut store = DataContainer::new(100, 100);
    for (i, payload) in ["1,2", "3,4", "5,6"].iter().enumerate() {
        feed(&mut store, payload, i as u128);
    }
    assert_eq!(store.columns().len(), 2);
    assert_eq!(values_of(&store.columns()[0]), vec![1.0, 3.0, 5.0]);
    for i in 0..15 {
        feed(&mut store, "garbage", 10 + i);
    }
    let good = ["10,20,30", "11,21,31", "12,22,32", "13,23,33", "14,24,34"];
    for (i, payload) in good.iter().enumerate() {
        feed(&mut store, payload, 100 + i as u128);
    }
    assert_eq!(store.columns().len(), 3);
    assert_eq!(values_of(&store.columns()[0]), vec![10.0, 11.0, 12.0, 13.0, 14.0]);
    assert_eq!(values_of(&store.columns()[1]), vec![20.0, 21.0, 22.0, 23.0, 24.0]);
    assert_eq!(values_of(&store.columns()[2]), vec![30.0, 31.0, 32.0, 33.0, 34.0]);
    assert_eq!(store.columns()[0].get(0).unwrap().time, 100);
}

#[test]
fn identifier_multiplexing() {
    let mut store = DataContainer::new(100, 100);
    assert_eq!(feed(&mut store, "A:1,2", 0), Outcome::Rebuilt);
    assert_eq!(feed(&mut store, "B:3", 1), Outcome::Extended);
    assert_eq!(feed(&mut store, "A:4,5", 2), Outcome::Appended);
    assert_eq!(store.columns().len(), 3);
    assert_eq!(values_of(&store.columns()[0]), vec![1.0, 4.0]);
    assert_eq!(values_of(&store.columns()[1]), vec![2.0, 5.0]);
    assert_eq!(values_of(&store.columns()[2]), vec![3.0]);
    assert_eq!(store.columns()[2].name(), "Column 2");
}

#[test]
fn known_stream_with_wrong_count_is_dropped() {
    let mut store = DataContainer::new(100, 100);
    feed(&mut store, "A:1,2", 0);
    feed(&mut store, "B:3", 1);
    assert_eq!(feed(&mut store, "B:4,5", 2), Outcome::Missed);
    assert_eq!(store.failures(), 1);
    assert_eq!(values_of(&store.columns()[2]), vec![3.0]);
    assert_eq!(values_of(&store.columns()[0]), vec![1.0]);
}

#[test]
fn flat_record_fills_all_columns_of_all_streams() {
    let mut store = DataContainer::new(100, 100);
    feed(&mut store, "A:1,2", 0);
    feed(&mut store, "B:3", 1);
    assert_eq!(feed(&mut store, "7,8,9", 2), Outcome::Appended);
    assert_eq!(values_of(&store.columns()[0]), vec![1.0, 7.0]);
    assert_eq!(values_of(&store.columns()[1]), vec![2.0, 8.0]);
    assert_eq!(values_of(&store.columns()[2]), vec![3.0, 9.0]);
}

#[test]
fn labels_name_the_first_columns() {
    let mut store = DataContainer::new(100, 100);
    store.set_labels(vec!["volts".to_string()]);
    feed(&mut store, "1,2,3", 0);
    assert_eq!(store.columns()[0].name(), "volts");
    assert_eq!(store.columns()[1].name(), "Column 1");
    assert_eq!(store.columns()[2].name(), "Column 2");
}

#[test]
fn column_names_count_in_decimal() {
    let mut store = DataContainer::new(100, 100);
    feed(&mut store, "0,1,2,3,4,5,6,7,8,9,10,11", 0);
    assert_eq!(store.columns()[9].name(), "Column 9");
    assert_eq!(store.columns()[10].name(), "Column 10");
    assert_eq!(store.columns()[11].name(), "Column 11");
}
