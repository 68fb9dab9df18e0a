use statistik_import::record::Record;
use statistik_import::schema::Classification;

#[test]
fn new_record_is_classified_and_empty() {
    let record = Record::new("Statistik");
    assert_eq!(record.element, "Statistik");
    assert_eq!(record.classification, Classification::StructuredObject);
    assert_eq!(record.text, "");
    assert!(record.structure.is_empty());

    let list = Record::new("EjerBrugerSamling");
    assert_eq!(list.classification, Classification::OrderedList);

    let leaf = Record::new("KoeretoejIdent");
    assert_eq!(leaf.classification, Classification::Scalar);
}

#[test]
fn add_text_appends() {
    let mut record = Record::new("KoeretoejIdent");
    record.add_text("AB");
    record.add_text("");
    record.add_text("C");
    assert_eq!(record.text, "ABC");
    assert_eq!(record.element, "KoeretoejIdent");
    assert!(record.structure.is_empty());
}

#[test]
fn add_child_keeps_document_order() {
    let mut record = Record::new("Statistik");
    record.add_child(Record::new("A"));
    record.add_child(Record::new("B"));
    record.add_child(Record::new("A"));
    let names: Vec<&str> = record.structure.iter().map(|c| c.element.as_str()).collect();
    assert_eq!(names, vec!["A", "B", "A"]);
    assert_eq!(record.text, "");
}

#[test]
fn records_compare_by_content() {
    let mut a = Record::new("Statistik");
    a.add_child(Record::new("A"));
    let mut b = Record::new("Statistik");
    b.add_child(Record::new("A"));
    assert_eq!(a, b);
    b.add_text("x");
    assert_ne!(a, b);
}

#[test]
fn classified_takes_the_given_classification() {
    let record = Record::classified("Statistik", Classification::Scalar);
    assert_eq!(record.element, "Statistik");
    assert_eq!(record.classification, Classification::Scalar);
    assert_eq!(record.text, "");
    assert!(record.structure.is_empty());
    assert_ne!(record, Record::new("Statistik"));
    assert_eq!(
        Record::classified("Statistik", Classification::StructuredObject),
        Record::new("Statistik")
    );
}
