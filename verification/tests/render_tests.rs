use statistik_import::diagnostic::Diagnostic;
use statistik_import::record::Record;
use statistik_import::value::Value;

fn leaf(name: &str, text: &str) -> Record {
    let mut record = Record::new(name);
    record.add_text(text);
    record
}

fn node(name: &str, children: Vec<Record>) -> Record {
    let mut record = Record::new(name);
    for child in children {
        record.add_child(child);
    }
    record
}

fn duplicate(parent: &str, child: &str) -> Diagnostic {
    Diagnostic::DuplicateField { parent: String::from(parent), child: String::from(child) }
}

#[test]
fn a_scalar_renders_to_its_text() {
    let out = leaf("KoeretoejIdent", "ABC").to_json();
    assert!(matches!(&out.value, Value::Text(text) if text == "ABC"));
    assert!(out.warnings.is_empty());
    assert_eq!(out.value.to_json_text(), "\"ABC\"");
}

#[test]
fn a_scalar_ignores_its_children() {
    let mut record = node("Ukendt", vec![leaf("Barn", "x"), leaf("Barn", "y")]);
    record.add_text("t");
    let out = record.to_json();
    assert_eq!(out.value.to_json_text(), "\"t\"");
    assert!(out.warnings.is_empty());
}

#[test]
fn an_object_ignores_its_own_text() {
    let mut record = node("Statistik", vec![leaf("KoeretoejIdent", "ABC")]);
    record.add_text("\n  \n");
    let out = record.to_json();
    assert_eq!(out.value.to_json_text(), "{\"KoeretoejIdent\":\"ABC\"}");
}

#[test]
fn an_empty_list_renders_to_an_empty_list() {
    let out = Record::new("EjerBrugerSamling").to_json();
    assert!(matches!(&out.value, Value::List(items) if items.is_empty()));
    assert_eq!(out.value.to_json_text(), "[]");
}

#[test]
fn an_empty_list_is_a_field_of_its_parent() {
    let record = node("Statistik", vec![Record::new("EjerBrugerSamling")]);
    let out = record.to_json();
    match &out.value {
        Value::Object(fields) => {
            assert!(fields.contains_key("EjerBrugerSamling"));
            let list = fields.get("EjerBrugerSamling");
            assert!(matches!(list, Some(Value::List(items)) if items.is_empty()));
        },
        other => panic!("the record did not render to an object: {:?}", other),
    }
    assert_eq!(out.value.to_json_text(), "{\"EjerBrugerSamling\":[]}");
}

#[test]
fn a_list_keeps_document_order_and_repeats() {
    let record = node(
        "EjerBrugerSamling",
        vec![
            node("EjerBruger", vec![leaf("Navn", "b")]),
            node("EjerBruger", vec![leaf("Navn", "a")]),
        ],
    );
    let out = record.to_json();
    assert!(matches!(&out.value, Value::List(items) if items.len() == 2));
    assert_eq!(out.value.to_json_text(), "[{\"Navn\":\"b\"},{\"Navn\":\"a\"}]");
    assert!(out.warnings.is_empty());
}

#[test]
fn items_of_a_list_are_classified_by_their_own_names() {
    let record = node(
        "TilladelseSamling",
        vec![leaf("Ukendt", "x"), Record::new("Tilladelse"), Record::new("EjerBrugerSamling")],
    );
    assert_eq!(record.to_json().value.to_json_text(), "[\"x\",{},[]]");
}

#[test]
fn of_two_children_with_one_name_the_first_is_kept() {
    let record = node("Statistik", vec![leaf("KoeretoejIdent", "1"), leaf("KoeretoejIdent", "2")]);
    let out = record.to_json();
    assert_eq!(out.value.to_json_text(), "{\"KoeretoejIdent\":\"1\"}");
    assert_eq!(out.warnings, vec![duplicate("Statistik", "KoeretoejIdent")]);
    assert_eq!(out.warnings[0].message(), "ERROR: Multiple KoeretoejIdent inside Statistik");
}

#[test]
fn every_repeat_is_reported_once() {
    let record = node(
        "Statistik",
        vec![leaf("A", "1"), leaf("B", "2"), leaf("A", "3"), leaf("A", "4"), leaf("B", "5")],
    );
    let out = record.to_json();
    assert_eq!(out.value.to_json_text(), "{\"A\":\"1\",\"B\":\"2\"}");
    assert_eq!(
        out.warnings,
        vec![duplicate("Statistik", "A"), duplicate("Statistik", "A"), duplicate("Statistik", "B")]
    );
}

#[test]
fn a_child_that_is_left_out_is_not_rendered() {
    let inner = node("Model", vec![leaf("X", "1"), leaf("X", "2")]);
    let record = node("Statistik", vec![leaf("Model", "first"), inner]);
    let out = record.to_json();
    assert_eq!(out.warnings, vec![duplicate("Statistik", "Model")]);
}

#[test]
fn warnings_come_in_the_order_of_the_walk() {
    let record = node(
        "Statistik",
        vec![
            node("Model", vec![leaf("X", "1"), leaf("X", "2")]),
            node(
                "EjerBrugerSamling",
                vec![node("EjerBruger", vec![leaf("Y", "1"), leaf("Y", "2")])],
            ),
            leaf("Model", "again"),
        ],
    );
    let out = record.to_json();
    assert_eq!(
        out.warnings,
        vec![duplicate("Model", "X"), duplicate("EjerBruger", "Y"), duplicate("Statistik", "Model")]
    );
    assert_eq!(
        out.value.to_json_text(),
        "{\"EjerBrugerSamling\":[{\"Y\":\"1\"}],\"Model\":{\"X\":\"1\"}}"
    );
}

#[test]
fn rendering_twice_gives_the_same_text() {
    let record = node(
        "Statistik",
        vec![
            leaf("KoeretoejIdent", "ABC"),
            node("EjerBrugerSamling", vec![Record::new("EjerBruger"), Record::new("EjerBruger")]),
            leaf("KoeretoejIdent", "DEF"),
        ],
    );
    let first = record.to_json();
    let second = record.to_json();
    assert_eq!(first.value.to_json_text(), second.value.to_json_text());
    assert_eq!(first.warnings, second.warnings);
}
