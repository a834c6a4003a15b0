use serial_monitor::data::{Column, Packet, Sample, SerialDirection};
use serial_monitor::number::Number;
use serial_monitor::schema::Record;
use serial_monitor::store::DataContainer;

fn sample(i: u128) -> Sample {
    Sample { time: i, absolute_time: 1000 + i, value: Number::parse(&i.to_string()).unwrap() }
}

fn values_of(column: &Column) -> Vec<f64> {
    (0..column.len())
        .map(|i| column.get(i).unwrap().value.as_str().parse::<f64>().unwrap())
        .collect()
}

#[test]
fn ring_buffer_bound() {
    let capacity = 4;
    let mut column = Column::new("c".to_string());
    for i in 0..10 {
        column.push(sample(i), capacity);
    }
    assert_eq!(column.len(), capacity);
    assert_eq!(values_of(&column), vec![6.0, 7.0, 8.0, 9.0]);
    assert_eq!(column.get(0).unwrap().time, 6);
    assert!(column.get(4).is_none());
}

#[test]
fn below_the_bound_nothing_leaves() {
    let mut column = Column::new("c".to_string());
    for i in 0..3 {
        column.push(sample(i), 4);
    }
    assert_eq!(values_of(&column), vec![0.0, 1.0, 2.0]);
    column.push(sample(3), 4);
    assert_eq!(values_of(&column), vec![0.0, 1.0, 2.0, 3.0]);
    column.push(sample(4), 4);
    assert_eq!(values_of(&column), vec![1.0, 2.0, 3.0, 4.0]);
}

#[test]
fn capacity_zero_holds_nothing() {
    let mut column = Column::new("c".to_string());
    column.push(sample(1), 0);
    assert_eq!(column.len(), 0);
}

#[test]
fn bound_cuts_from_the_front() {
    let mut column = Column::new("c".to_string());
    for i in 0..6 {
        column.push(sample(i), 10);
    }
    column.bound(2);
    assert_eq!(values_of(&column), vec![4.0, 5.0]);
    column.bound(5);
    assert_eq!(values_of(&column), vec![4.0, 5.0]);
}

#[test]
fn store_columns_are_bounded() {
    let mut store = DataContainer::new(3, 2);
    for i in 0..8u128 {
        let payload = format!("{},{}", i, 10 * i);
        store.absorb(Record::parse(&payload), i, i);
    }
    assert_eq!(store.capacity(), 3);
    assert_eq!(store.columns().len(), 2);
    assert_eq!(values_of(&store.columns()[0]), vec![5.0, 6.0, 7.0]);
    assert_eq!(values_of(&store.columns()[1]), vec![50.0, 60.0, 70.0]);
    store.set_capacity(1);
    assert_eq!(values_of(&store.columns()[0]), vec![7.0]);
    assert_eq!(values_of(&store.columns()[1]), vec![70.0]);
}

fn packet(i: u128) -> Packet {
    Packet {
        relative_time: i,
        absolute_time: i,
        direction: SerialDirection::Receive,
        payload: format!("line {}", i),
    }
}

#[test]
fn log_is_bounded_on_its_own() {
    let mut store = DataContainer::new(100, 2);
    for i in 0..5 {
        store.log_packet(&packet(i));
    }
    let payloads: Vec<&str> = store.raw_traffic().iter().map(|p| p.payload.as_str()).collect();
    assert_eq!(payloads, vec!["line 3", "line 4"]);
    store.set_raw_capacity(1);
    assert_eq!(store.raw_traffic().len(), 1);
    assert_eq!(store.raw_traffic()[0].payload, "line 4");
}

#[test]
fn log_can_be_turned_off() {
    let mut store = DataContainer::new(100, 10);
    store.log_packet(&packet(0));
    store.set_raw_enabled(false);
    assert_eq!(store.raw_traffic().len(), 0);
    store.log_packet(&packet(1));
    assert_eq!(store.raw_traffic().len(), 0);
    store.set_raw_enabled(true);
    store.log_packet(&packet(2));
    assert_eq!(store.raw_traffic().len(), 1);
}

#[test]
fn clear_gives_a_fresh_store_with_the_settings() {
    let mut store = DataContainer::new(7, 9);
    store.absorb(Record::parse("1,2"), 0, 0);
    store.log_packet(&packet(0));
    store.clear();
    assert_eq!(store.columns().len(), 0);
    assert_eq!(store.raw_traffic().len(), 0);
    assert_eq!(store.failures(), 0);
    assert!(!store.loaded_from_file());
    assert_eq!(store.capacity(), 7);
}

#[test]
fn default_store_is_empty() {
    let store = DataContainer::default();
    assert_eq!(store.columns().len(), 0);
    assert_eq!(store.capacity(), usize::MAX);
    assert!(!store.loaded_from_file());
}
