use serial_monitor::cli::{parse_databits, parse_flow, parse_parity, parse_stopbits};
use serial_monitor::crc::calculate_crc;
use serial_monitor::custom_highlighter::HighLightElement;
use serial_monitor::data::{Packet, SerialDirection};
use serial_monitor::decimal::{decimal_string, parse_decimal};
use serial_monitor::ingest::{console_text, GuiCommand, Ingestion};
use serial_monitor::io::FileOptions;
use serial_monitor::number::Number;
use serial_monitor::record::{
    get_headers, get_row, RecordData, RecordOptions, Recorder, RecorderStep,
};
use serial_monitor::schema::Record;
use serial_monitor::serial::{DataBits, FlowControl, Parity, StopBits};
use serial_monitor::store::{DataContainer, Outcome};
use serial_monitor::text::{chars_of, split_tokens, string_of, trim_range};
use serial_monitor::utils::truncate_tail;
use std::path::PathBuf;

fn packet(direction: SerialDirection, time: u128, payload: &str) -> Packet {
    Packet {
        relative_time: time,
        absolute_time: 1_000_000 + time,
        direction,
        payload: payload.to_string(),
    }
}

#[test]
fn crc_of_the_check_string() {
    assert_eq!(calculate_crc("123456789"), 0xF4);
    assert_eq!(calculate_crc(""), 0x00);
    assert_eq!(calculate_crc("\u{0}"), 0x00);
    assert_eq!(calculate_crc("\u{1}"), 0x07);
    assert_eq!(calculate_crc("a"), 0x20);
}

#[test]
fn crc_of_message_with_its_checksum_is_zero() {
    let message = "hello";
    let crc = calculate_crc(message);
    let framed = format!("{}{}", message, crc as char);
    if crc < 128 {
        assert_eq!(calculate_crc(&framed), 0);
    }
    assert_eq!(calculate_crc("Hello, world!"), calculate_crc("Hello, world!"));
    assert_ne!(calculate_crc("ab"), calculate_crc("ba"));
}

#[test]
fn decimal_digits() {
    assert_eq!(decimal_string(0), "0");
    assert_eq!(decimal_string(7), "7");
    assert_eq!(decimal_string(10), "10");
    assert_eq!(decimal_string(1_700_000_000_123), "1700000000123");
    assert_eq!(decimal_string(u128::MAX), "340282366920938463463374607431768211455");
    let digits: Vec<char> = "00123".chars().collect();
    assert_eq!(parse_decimal(&digits), Some(123));
    let digits: Vec<char> = "340282366920938463463374607431768211455".chars().collect();
    assert_eq!(parse_decimal(&digits), Some(u128::MAX));
    let digits: Vec<char> = "340282366920938463463374607431768211456".chars().collect();
    assert_eq!(parse_decimal(&digits), None);
    assert_eq!(parse_decimal(&Vec::new()), None);
    let digits: Vec<char> = "12a".chars().collect();
    assert_eq!(parse_decimal(&digits), None);
}

#[test]
fn text_helpers() {
    let chars = chars_of("  a b\t");
    assert_eq!(chars.len(), 6);
    assert_eq!(string_of(&chars), "  a b\t");
    assert_eq!(trim_range(&chars, 0, 6), (2, 5));
    assert_eq!(trim_range(&chars, 0, 2), (2, 2));
    let nbsp = chars_of("\u{a0}x\u{3000}");
    assert_eq!(trim_range(&nbsp, 0, 3), (1, 2));
    let tokens = split_tokens(&chars_of(" a : b,c ,, "));
    let texts: Vec<String> = tokens.iter().map(string_of).collect();
    let trimmed: Vec<&str> = " a : b,c ,, ".split(|c| c == ':' || c == ',').map(str::trim).collect();
    assert_eq!(texts, trimmed);
    assert_eq!(texts, vec!["a", "b", "c", "", ""]);
    assert_eq!(split_tokens(&chars_of("")).len(), 1);
}

#[test]
fn console_lines() {
    let received = packet(SerialDirection::Receive, 1234, "1,2");
    let sent = packet(SerialDirection::Send, 61_005, "go");
    assert_eq!(console_text(true, true, &received).unwrap(), "[RECV] t + 1.234s: 1,2\n");
    assert_eq!(console_text(true, true, &sent).unwrap(), "[SEND] t + 61.005s: go\n");
    assert_eq!(console_text(false, true, &received).unwrap(), "[RECV]: 1,2\n");
    assert_eq!(console_text(false, true, &sent).unwrap(), "[SEND]: go\n");
    assert_eq!(console_text(true, false, &received).unwrap(), "t + 1.234s: 1,2\n");
    assert_eq!(console_text(false, false, &received).unwrap(), "1,2\n");
    assert_eq!(console_text(true, false, &sent), None);
    assert_eq!(console_text(false, false, &sent), None);
    let early = packet(SerialDirection::Receive, 7, "");
    assert_eq!(console_text(true, false, &early).unwrap(), "t + 0.007s: \n");
    let round = packet(SerialDirection::Receive, 2000, "x");
    assert_eq!(console_text(true, false, &round).unwrap(), "t + 2.000s: x\n");
}

#[test]
fn worker_takes_packets() {
    let mut worker = Ingestion::new(DataContainer::new(100, 100));
    let delivery = worker.handle_packet(packet(SerialDirection::Receive, 10, "1.5,2"));
    assert_eq!(delivery.outcome, Some(Outcome::Rebuilt));
    assert!(delivery.repaint);
    assert_eq!(delivery.console.unwrap(), "[RECV] t + 0.010s: 1.5,2\n");
    let sample = delivery.sample.unwrap();
    assert_eq!(sample.time, 1_000_010);
    let datas: Vec<&str> = sample.datas.iter().map(|n| n.as_str()).collect();
    assert_eq!(datas, vec!["1.5", "2"]);
    assert_eq!(worker.data().columns().len(), 2);
    assert_eq!(worker.data().raw_traffic().len(), 1);

    let delivery = worker.handle_packet(packet(SerialDirection::Receive, 20, "1,2,3"));
    assert_eq!(delivery.outcome, Some(Outcome::Missed));
    assert!(delivery.sample.is_none());
    assert!(delivery.console.is_some());
    assert_eq!(worker.data().raw_traffic().len(), 2);
}

#[test]
fn empty_payload_is_logged_and_not_parsed() {
    let mut worker = Ingestion::new(DataContainer::new(100, 100));
    worker.handle_packet(packet(SerialDirection::Receive, 1, "1,2"));
    let delivery = worker.handle_packet(packet(SerialDirection::Receive, 2, ""));
    assert_eq!(delivery.outcome, None);
    assert!(delivery.console.is_none());
    assert!(delivery.sample.is_none());
    assert!(!delivery.repaint);
    assert_eq!(worker.data().raw_traffic().len(), 2);
    assert_eq!(worker.data().failures(), 0);
    assert_eq!(worker.data().columns()[0].len(), 1);
}

#[test]
fn commands_change_what_the_console_shows() {
    let mut worker = Ingestion::new(DataContainer::new(100, 100));
    worker.handle_command(GuiCommand::ShowTimestamps(false));
    let delivery = worker.handle_packet(packet(SerialDirection::Send, 1, "go"));
    assert_eq!(delivery.console.unwrap(), "[SEND]: go\n");
    worker.handle_command(GuiCommand::ShowSentTraffic(false));
    let delivery = worker.handle_packet(packet(SerialDirection::Send, 2, "go"));
    assert!(delivery.console.is_none());
    let delivery = worker.handle_packet(packet(SerialDirection::Receive, 3, "7"));
    assert_eq!(delivery.console.unwrap(), "7\n");
}

#[test]
fn clear_command_empties_the_store() {
    let mut worker = Ingestion::new(DataContainer::new(100, 100));
    worker.handle_packet(packet(SerialDirection::Receive, 1, "1,2"));
    worker.handle_command(GuiCommand::Clear);
    assert_eq!(worker.data().columns().len(), 0);
    assert_eq!(worker.data().raw_traffic().len(), 0);
    assert_eq!(worker.data().capacity(), 100);
}

#[test]
fn file_pauses_the_line_until_it_is_closed() {
    let mut worker = Ingestion::new(DataContainer::new(100, 100));
    worker.handle_packet(packet(SerialDirection::Receive, 1, "1,2"));
    let mut csv_options = FileOptions {
        file_path: PathBuf::from("in.csv"),
        save_absolute_time: false,
        save_raw_traffic: false,
        names: Vec::new(),
    };
    assert!(worker.handle_load(b"Time [ms],a\n1,x\n", &mut csv_options).is_err());
    assert!(!worker.data().loaded_from_file());
    assert_eq!(worker.data().columns().len(), 2);
    assert_eq!(worker.handle_load(b"Time [ms],a\n1,5\n", &mut csv_options), Ok(()));
    assert!(worker.data().loaded_from_file());
    assert_eq!(csv_options.names, vec!["a"]);
    let delivery = worker.handle_packet(packet(SerialDirection::Receive, 2, "3,4"));
    assert_eq!(delivery.outcome, None);
    assert!(delivery.console.is_none());
    assert_eq!(worker.data().raw_traffic().len(), 0);
    assert_eq!(worker.data().columns().len(), 1);
    let saved = worker.handle_save(&csv_options).unwrap();
    assert_eq!(String::from_utf8(saved.data).unwrap(), "Time [ms],a\n1,5\n");
    worker.close_file();
    assert!(!worker.data().loaded_from_file());
    assert_eq!(worker.data().columns().len(), 0);
    let delivery = worker.handle_packet(packet(SerialDirection::Receive, 3, "3,4"));
    assert_eq!(delivery.outcome, Some(Outcome::Rebuilt));
}

#[test]
fn record_options_default() {
    let options = RecordOptions::default();
    assert!(!options.enable);
    assert_eq!(options.record_path, PathBuf::new());
    assert!(!options.windows_style_line_endings);
    assert!(options.write_header_line);
    assert!(options.insert_timestamp);
}

fn record_options(enable: bool, windows: bool, header: bool, timestamp: bool) -> RecordOptions {
    RecordOptions {
        enable,
        record_path: PathBuf::from("record.csv"),
        windows_style_line_endings: windows,
        write_header_line: header,
        insert_timestamp: timestamp,
    }
}

fn two_columns() -> DataContainer {
    let mut store = DataContainer::new(100, 100);
    store.absorb(Record::parse("1,2"), 0, 0);
    store
}

fn sample() -> RecordData {
    RecordData {
        time: 1_700_000_000_000,
        datas: vec![Number::parse("1.5").unwrap(), Number::parse("-2").unwrap()],
    }
}

#[test]
fn headers_and_rows_of_a_recording() {
    let names = two_columns().names();
    assert_eq!(names, vec!["Column 0", "Column 1"]);
    assert_eq!(
        get_headers(&names, &record_options(true, false, true, true)),
        vec!["Timestamp", "Column 0", "Column 1"]
    );
    assert_eq!(
        get_headers(&names, &record_options(true, false, true, false)),
        vec!["Column 0", "Column 1"]
    );
    assert_eq!(
        get_row(&sample(), &record_options(true, false, true, true)),
        vec!["1700000000000", "1.5", "-2"]
    );
    assert_eq!(get_row(&sample(), &record_options(true, false, true, false)), vec!["1.5", "-2"]);
}

#[test]
fn recorder_opens_writes_and_closes() {
    let mut recorder = Recorder::new();
    assert_eq!(recorder.plan(), RecorderStep::Discard);
    recorder.configure(record_options(true, false, true, true));
    assert_eq!(recorder.plan(), RecorderStep::Open);
    let header = recorder.opened(&two_columns().names()).unwrap();
    assert_eq!(String::from_utf8(header).unwrap(), "Timestamp,Column 0,Column 1\n");
    assert_eq!(recorder.plan(), RecorderStep::Record);
    assert_eq!(
        String::from_utf8(recorder.encode(&sample()).unwrap()).unwrap(),
        "1700000000000,1.5,-2\n"
    );
    recorder.configure(record_options(false, false, true, true));
    assert_eq!(recorder.plan(), RecorderStep::Discard);
    recorder.configure(record_options(true, false, true, true));
    assert_eq!(recorder.plan(), RecorderStep::Open);
}

#[test]
fn recorder_follows_its_options() {
    let mut recorder = Recorder::new();
    recorder.configure(record_options(true, true, false, false));
    assert_eq!(recorder.plan(), RecorderStep::Open);
    assert!(recorder.opened(&two_columns().names()).is_none());
    assert_eq!(String::from_utf8(recorder.encode(&sample()).unwrap()).unwrap(), "1.5,-2\r\n");
    recorder.configure(record_options(true, true, true, false));
    assert_eq!(recorder.plan(), RecorderStep::Record);
    assert!(recorder.options().windows_style_line_endings);
}

#[test]
fn failure_turns_the_recorder_off() {
    let mut recorder = Recorder::new();
    recorder.configure(record_options(true, false, true, true));
    assert_eq!(recorder.plan(), RecorderStep::Open);
    recorder.failed();
    assert!(!recorder.options().enable);
    assert_eq!(recorder.plan(), RecorderStep::Discard);
    recorder.configure(record_options(true, false, true, true));
    recorder.plan();
    recorder.opened(&two_columns().names());
    recorder.failed();
    assert_eq!(recorder.plan(), RecorderStep::Discard);
}

#[test]
fn command_line_arguments() {
    assert_eq!(parse_databits("5"), Ok(DataBits::Five));
    assert_eq!(parse_databits("6"), Ok(DataBits::Six));
    assert_eq!(parse_databits("7"), Ok(DataBits::Seven));
    assert_eq!(parse_databits("+8"), Ok(DataBits::Eight));
    assert_eq!(parse_databits("9"), Err("invalid databits: 9".to_string()));
    assert_eq!(parse_databits("eight"), Err("databits not a number: eight".to_string()));
    assert_eq!(parse_databits("256"), Err("databits not a number: 256".to_string()));
    assert_eq!(parse_databits(""), Err("databits not a number: ".to_string()));
    assert_eq!(parse_databits("-5"), Err("databits not a number: -5".to_string()));
    assert_eq!(parse_stopbits("1"), Ok(StopBits::One));
    assert_eq!(parse_stopbits("02"), Ok(StopBits::Two));
    assert_eq!(parse_stopbits("3"), Err("invalid stopbits: 3".to_string()));
    assert_eq!(parse_stopbits("x"), Err("stopbits not a number: x".to_string()));
    assert_eq!(parse_flow("none"), Ok(FlowControl::Off));
    assert_eq!(parse_flow("soft"), Ok(FlowControl::Software));
    assert_eq!(parse_flow("hard"), Ok(FlowControl::Hardware));
    assert_eq!(parse_flow("None"), Err("invalid flow-control: None".to_string()));
    assert_eq!(parse_parity("none"), Ok(Parity::Off));
    assert_eq!(parse_parity("odd"), Ok(Parity::Odd));
    assert_eq!(parse_parity("even"), Ok(Parity::Even));
    assert_eq!(parse_parity("mark"), Err("invalid parity setting: mark".to_string()));
    for s in ["5", "+8", "256", "-5", "", "007"] {
        assert_eq!(parse_databits(s).is_err(), !matches!(s.parse::<u8>(), Ok(5..=8)), "{:?}", s);
    }
}

#[test]
fn tail_of_a_vector() {
    assert_eq!(truncate_tail(vec![1, 2, 3, 4, 5], 2), vec![4, 5]);
    assert_eq!(truncate_tail(vec![1, 2, 3], 3), vec![1, 2, 3]);
    assert_eq!(truncate_tail(vec![1, 2, 3], 7), vec![1, 2, 3]);
    assert_eq!(truncate_tail(vec![1, 2, 3], 0), Vec::<i32>::new());
}

#[test]
fn highlight_element_keeps_its_fields() {
    let element = HighLightElement::new(3, 9, 1);
    assert_eq!(element.pos_start(), 3);
    assert_eq!(element.pos_end(), 9);
    assert_eq!(element.token_idx(), 1);
}
