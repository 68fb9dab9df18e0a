use statistik_import::diagnostic::Diagnostic;
use statistik_import::dispatch::{document_line, unit_path, Dispatcher, PROGRESS_INTERVAL};
use statistik_import::record::Record;
use statistik_import::value::Value;

fn leaf(name: &str, text: &str) -> Record {
    let mut record = Record::new(name);
    record.add_text(text);
    record
}

fn sample() -> Record {
    let mut record = Record::new("Statistik");
    record.add_child(leaf("KoeretoejIdent", "ABC"));
    record
}

#[test]
fn records_are_numbered_from_zero() {
    let mut dispatcher = Dispatcher::new(1, false, false);
    assert_eq!(dispatcher.count(), 0);
    for expected in 0..5 {
        let out = dispatcher.dispatch(&sample());
        assert_eq!(out.index, expected);
        assert_eq!(dispatcher.count(), expected + 1);
    }
}

#[test]
fn a_chunk_of_three_starts_a_unit_every_third_record() {
    let mut dispatcher = Dispatcher::new(3, true, false);
    let mut starts = Vec::new();
    let mut opened = Vec::new();
    for _ in 0..8 {
        let out = dispatcher.dispatch(&sample());
        starts.push(out.unit_start);
        opened.push(out.opens_unit);
    }
    assert_eq!(
        starts,
        vec![Some(0), Some(0), Some(0), Some(3), Some(3), Some(3), Some(6), Some(6)]
    );
    assert_eq!(opened, vec![true, false, false, true, false, false, true, false]);
}

#[test]
fn records_of_one_chunk_share_a_unit() {
    let size = 4;
    let mut dispatcher = Dispatcher::new(size, true, true);
    for index in 0..20 {
        let out = dispatcher.dispatch(&sample());
        let start = out.unit_start.expect("the file sink is configured");
        assert_eq!(start / size, index / size);
        assert_eq!(start % size, 0);
        assert!(start <= index && index < start + size);
        assert_eq!(out.opens_unit, index % size == 0);
    }
}

#[test]
fn a_chunk_of_one_gives_every_record_its_own_unit() {
    let mut dispatcher = Dispatcher::new(1, true, false);
    for index in 0..5 {
        let out = dispatcher.dispatch(&sample());
        assert!(out.opens_unit);
        assert_eq!(out.unit_start, Some(index));
    }
}

#[test]
fn without_a_file_sink_no_unit_is_started() {
    let mut dispatcher = Dispatcher::new(0, false, true);
    for _ in 0..3 {
        let out = dispatcher.dispatch(&sample());
        assert!(!out.opens_unit);
        assert!(out.unit_start.is_none());
        assert!(out.document.is_none());
        assert!(out.run_insert);
    }
}

#[test]
fn the_rendered_document_is_handed_on() {
    let mut dispatcher = Dispatcher::new(1, false, false);
    let out = dispatcher.dispatch(&sample());
    assert_eq!(out.value.to_json_text(), "{\"KoeretoejIdent\":\"ABC\"}");
    assert!(matches!(out.value, Value::Object(_)));
}

#[test]
fn the_document_is_one_line_of_json() {
    let mut dispatcher = Dispatcher::new(2, true, false);
    let out = dispatcher.dispatch(&sample());
    assert_eq!(out.document, Some(String::from("{\"KoeretoejIdent\":\"ABC\"}\n")));
    assert!(!out.run_insert);
}

#[test]
fn the_insert_is_made_for_an_object() {
    let mut dispatcher = Dispatcher::new(1, false, true);
    let out = dispatcher.dispatch(&sample());
    let sql = out.insert.expect("an object is inserted");
    assert!(sql.starts_with("INSERT INTO stat (\nKoeretoejIdent, "));
    assert!(sql.contains(")\nVALUES (  'ABC',\n  NULL,\n"));
    assert!(sql.ends_with("  NULL);\n"));
    assert!(out.run_insert);
}

#[test]
fn the_insert_is_made_but_not_run_without_a_relational_sink() {
    let mut dispatcher = Dispatcher::new(1, true, false);
    let out = dispatcher.dispatch(&sample());
    assert!(out.insert.is_some());
    assert!(!out.run_insert);
}

#[test]
fn a_record_that_is_no_object_is_not_inserted() {
    let mut dispatcher = Dispatcher::new(1, true, true);
    let out = dispatcher.dispatch(&leaf("KoeretoejIdent", "ABC"));
    assert!(out.insert.is_none());
    assert!(!out.run_insert);
    assert_eq!(out.document, Some(String::from("\"ABC\"\n")));
    let out = dispatcher.dispatch(&Record::new("EjerBrugerSamling"));
    assert!(out.insert.is_none());
    assert_eq!(out.document, Some(String::from("[]\n")));
    assert_eq!(out.index, 1);
}

#[test]
fn diagnostics_of_rendering_and_of_the_row_are_collected() {
    let mut record = Record::new("Statistik");
    record.add_child(leaf("KoeretoejArtNummer", "7"));
    record.add_child(leaf("KoeretoejIdent", "A"));
    record.add_child(leaf("KoeretoejIdent", "B"));
    let mut dispatcher = Dispatcher::new(1, true, true);
    let out = dispatcher.dispatch(&record);
    assert_eq!(
        out.diagnostics,
        vec![
            Diagnostic::DuplicateField {
                parent: String::from("Statistik"),
                child: String::from("KoeretoejIdent"),
            },
            Diagnostic::LossyCoercion { column: String::from("KoeretoejArtNummer") },
        ]
    );
    let sql = out.insert.expect("an object is inserted");
    assert!(sql.contains(")\nVALUES (  'A',\n  0,\n  NULL,\n"));
}

#[test]
fn a_failing_record_does_not_change_the_next() {
    let mut bad = Record::new("Statistik");
    bad.add_child(leaf("KoeretoejArtNummer", "x"));
    let mut with_bad = Dispatcher::new(2, true, true);
    with_bad.dispatch(&bad);
    let after_bad = with_bad.dispatch(&sample());
    let mut without = Dispatcher::new(2, true, true);
    without.dispatch(&sample());
    let after_good = without.dispatch(&sample());
    assert_eq!(after_bad.index, after_good.index);
    assert_eq!(after_bad.document, after_good.document);
    assert_eq!(after_bad.insert, after_good.insert);
    assert_eq!(after_bad.opens_unit, after_good.opens_unit);
    assert!(after_bad.diagnostics.is_empty());
}

#[test]
fn progress_is_reported_every_thousand_records() {
    assert_eq!(PROGRESS_INTERVAL, 1000);
    let mut dispatcher = Dispatcher::new(1, false, false);
    let record = Record::new("Statistik");
    let mut reported = Vec::new();
    for _ in 0..2500 {
        let out = dispatcher.dispatch(&record);
        if out.progress {
            reported.push(out.index + 1);
        }
    }
    assert_eq!(reported, vec![1000, 2000]);
}

#[test]
fn unit_path_names_the_unit_by_its_first_record() {
    assert_eq!(unit_path("out", 0), "out/0.json");
    assert_eq!(unit_path("/tmp/json dir", 1500), "/tmp/json dir/1500.json");
    assert_eq!(unit_path("", 7), "/7.json");
}

#[test]
fn document_line_ends_with_a_line_break() {
    assert_eq!(document_line("[]"), "[]\n");
    assert_eq!(document_line(""), "\n");
    assert_eq!(document_line("{\"a\":\"b\"}"), "{\"a\":\"b\"}\n");
}
