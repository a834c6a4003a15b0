use serial_monitor::custom_highlighter::{
    find_elements, highlight_impl, layout, sort_by_place, HighLightElement, Section,
};
use serial_monitor::ingest::Ingestion;
use serial_monitor::io::{is_supported, raw_file_name};
use serial_monitor::store::DataContainer;
use serial_monitor::data::{Packet, SerialDirection};

fn tokens(list: &[&str]) -> Vec<String> {
    list.iter().map(|t| t.to_string()).collect()
}

fn plain(start: usize, end: usize) -> Section {
    Section { start, end, token: None }
}

fn coloured(start: usize, end: usize, token: usize) -> Section {
    Section { start, end, token: Some(token) }
}

#[test]
fn matches_are_found_pattern_after_pattern() {
    let found = find_elements("error: code 42 error", &tokens(&["error", "[0-9]+"]));
    assert_eq!(
        found,
        vec![
            HighLightElement::new(0, 5, 0),
            HighLightElement::new(15, 20, 0),
            HighLightElement::new(12, 14, 1),
        ]
    );
}

#[test]
fn pattern_that_is_not_found_gives_nothing() {
    let found = find_elements("abc", &tokens(&["x", "b"]));
    assert_eq!(found, vec![HighLightElement::new(1, 2, 1)]);
}

#[test]
fn bad_pattern_spoils_all() {
    let found = find_elements("abc", &tokens(&["b", "("]));
    assert!(found.is_empty());
    assert_eq!(highlight_impl("abc", tokens(&["b", "("])), vec![plain(0, 3)]);
}

#[test]
fn sorting_goes_by_start_then_end_and_is_stable() {
    let elements = vec![
        HighLightElement::new(5, 9, 0),
        HighLightElement::new(1, 4, 1),
        HighLightElement::new(5, 7, 2),
        HighLightElement::new(1, 4, 3),
        HighLightElement::new(0, 2, 4),
    ];
    let mut expected = elements.clone();
    expected.sort_by_key(|item| (item.pos_start(), item.pos_end()));
    assert_eq!(sort_by_place(&elements), expected);
    assert_eq!(
        sort_by_place(&elements),
        vec![
            HighLightElement::new(0, 2, 4),
            HighLightElement::new(1, 4, 1),
            HighLightElement::new(1, 4, 3),
            HighLightElement::new(5, 7, 2),
            HighLightElement::new(5, 9, 0),
        ]
    );
}

#[test]
fn sections_of_a_text() {
    let sections = highlight_impl("error: code 42 error", tokens(&["error", "", "[0-9]+"]));
    assert_eq!(
        sections,
        vec![plain(0, 12), coloured(12, 14, 1), plain(14, 15), coloured(15, 20, 0), plain(20, 20)]
    );
}

#[test]
fn text_without_patterns_is_one_section() {
    assert_eq!(highlight_impl("hello", Vec::new()), vec![plain(0, 5)]);
    assert_eq!(highlight_impl("hello", tokens(&["", ""])), vec![plain(0, 5)]);
    assert_eq!(highlight_impl("", tokens(&["a"])), vec![plain(0, 0)]);
}

#[test]
fn overlapping_matches_are_passed_over() {
    let elements = vec![
        HighLightElement::new(2, 6, 0),
        HighLightElement::new(4, 8, 1),
        HighLightElement::new(6, 7, 2),
        HighLightElement::new(7, 9, 3),
    ];
    assert_eq!(
        layout(&elements, 10),
        vec![plain(0, 2), coloured(2, 6, 0), plain(6, 7), coloured(7, 9, 3), plain(9, 10)]
    );
}

#[test]
fn patterns_beyond_the_palette_are_left_out() {
    let elements = vec![HighLightElement::new(2, 4, 4), HighLightElement::new(6, 8, 3)];
    assert_eq!(
        layout(&elements, 9),
        vec![plain(0, 2), plain(4, 6), coloured(6, 8, 3), plain(8, 9)]
    );
}

#[test]
fn bounds_are_in_bytes() {
    let sections = highlight_impl("grüß 7", tokens(&["[0-9]"]));
    assert_eq!(sections, vec![plain(0, 7), coloured(7, 8, 0), plain(8, 8)]);
}

#[test]
fn name_of_the_traffic_file() {
    assert_eq!(raw_file_name("data.csv"), "dataraw.csv");
    assert_eq!(raw_file_name("data"), "dataraw.csv");
    assert_eq!(raw_file_name("a.csv.b.csv"), "a.braw.csv");
    assert_eq!(raw_file_name(".csv"), "raw.csv");
    assert_eq!(raw_file_name(".c.csvsv"), ".csvraw.csv");
    for name in ["data.csv", "x.cs", ".csv.csv", "..csvv", "a.CSV"] {
        assert_eq!(raw_file_name(name), name.replace(".csv", "") + "raw.csv");
    }
}

#[test]
fn only_csv_files_are_loaded() {
    assert!(is_supported("csv"));
    assert!(!is_supported("CSV"));
    assert!(!is_supported("txt"));
    assert!(!is_supported(""));
    assert!(!is_supported("csv2"));
}

#[test]
fn worker_takes_new_limits() {
    let mut worker = Ingestion::new(DataContainer::new(100, 100));
    for i in 0..5u128 {
        worker.handle_packet(Packet {
            relative_time: i,
            absolute_time: i,
            direction: SerialDirection::Receive,
            payload: format!("{}", i),
        });
    }
    assert_eq!(worker.data().columns()[0].len(), 5);
    worker.set_limits(2, 3, true);
    assert_eq!(worker.data().columns()[0].len(), 2);
    assert_eq!(worker.data().columns()[0].get(0).unwrap().value.as_str(), "3");
    assert_eq!(worker.data().raw_traffic().len(), 3);
    worker.set_limits(2, 3, false);
    assert_eq!(worker.data().raw_traffic().len(), 0);
    worker.set_labels(vec!["x".to_string()]);
    worker.handle_packet(Packet {
        relative_time: 9,
        absolute_time: 9,
        direction: SerialDirection::Receive,
        payload: "1,2".to_string(),
    });
    assert_eq!(worker.data().failures(), 1);
}
