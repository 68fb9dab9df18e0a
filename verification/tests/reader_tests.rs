use statistik_import::reader::process_document;
use statistik_import::schema::Classification;
use statistik_import::table::insert_sqlite;
use statistik_import::value::Value;

#[test]
fn scenario_one_record_with_one_leaf() {
    let input = "<Statistik><KoeretoejIdent>ABC</KoeretoejIdent></Statistik>";
    let records = process_document(input.as_bytes());
    assert_eq!(records.len(), 1);
    let record = &records[0];
    assert_eq!(record.element, "Statistik");
    assert_eq!(record.classification, Classification::StructuredObject);
    assert_eq!(record.structure.len(), 1);
    assert_eq!(record.structure[0].element, "KoeretoejIdent");
    assert_eq!(record.structure[0].classification, Classification::Scalar);
    assert_eq!(record.structure[0].text, "ABC");

    let out = record.to_json();
    assert!(out.warnings.is_empty());
    let fields = match &out.value {
        Value::Object(fields) => fields,
        other => panic!("the record did not render to an object: {:?}", other),
    };
    let sql = insert_sqlite(fields);
    let values = sql.split(")\nVALUES (").nth(1).expect("the statement has values");
    let cells: Vec<&str> = values.trim_end_matches(");\n").split(",\n").collect();
    assert_eq!(cells.len(), 18);
    assert_eq!(cells[0], "  'ABC'");
    for cell in &cells[1..] {
        assert_eq!(*cell, "  NULL");
    }
}

#[test]
fn scenario_two_owners_render_to_a_list_of_two() {
    let input = "<Statistik><EjerBrugerSamling>\
        <EjerBruger><EjerBrugerForholdGrundStruktur><Nr>1</Nr>\
        </EjerBrugerForholdGrundStruktur></EjerBruger>\
        <EjerBruger><EjerBrugerForholdGrundStruktur><Nr>2</Nr>\
        </EjerBrugerForholdGrundStruktur></EjerBruger>\
        </EjerBrugerSamling></Statistik>";
    let records = process_document(input.as_bytes());
    assert_eq!(records.len(), 1);
    let out = records[0].to_json();
    assert!(out.warnings.is_empty());
    let fields = match &out.value {
        Value::Object(fields) => fields,
        other => panic!("the record did not render to an object: {:?}", other),
    };
    match fields.get("EjerBrugerSamling") {
        Some(Value::List(items)) => {
            assert_eq!(items.len(), 2);
            assert_eq!(
                items[0].to_json_text(),
                "{\"EjerBrugerForholdGrundStruktur\":{\"Nr\":\"1\"}}"
            );
            assert_eq!(
                items[1].to_json_text(),
                "{\"EjerBrugerForholdGrundStruktur\":{\"Nr\":\"2\"}}"
            );
        },
        other => panic!("the owners did not render to a list: {:?}", other),
    }
}

#[test]
fn records_inside_a_list_element_are_found() {
    let input = "<?xml version=\"1.0\" encoding=\"UTF-8\"?>\n\
        <ns:ESStatistikListeModtag_I xmlns:ns=\"http://example.org/ns\">\n\
          <ns:StatistikSamling>\n\
            <ns:Statistik><ns:KoeretoejIdent>1</ns:KoeretoejIdent></ns:Statistik>\n\
            <!-- a comment -->\n\
            <ns:Statistik><ns:KoeretoejIdent>2</ns:KoeretoejIdent></ns:Statistik>\n\
            <ns:Statistik/>\n\
          </ns:StatistikSamling>\n\
        </ns:ESStatistikListeModtag_I>\n";
    let records = process_document(input.as_bytes());
    assert_eq!(records.len(), 3);
    assert_eq!(records[0].structure[0].text, "1");
    assert_eq!(records[1].structure[0].text, "2");
    assert!(records[2].structure.is_empty());
    assert_eq!(records[0].structure[0].element, "KoeretoejIdent");
}

#[test]
fn whitespace_between_elements_is_no_text() {
    let input = "<Statistik>\n  <KoeretoejIdent>A B</KoeretoejIdent>\n</Statistik>";
    let records = process_document(input.as_bytes());
    assert_eq!(records[0].text, "");
    assert_eq!(records[0].structure[0].text, "A B");
}

#[test]
fn entities_are_read_as_text() {
    let input = "<Statistik><KoeretoejIdent>a&amp;b &lt;c&gt;</KoeretoejIdent></Statistik>";
    let records = process_document(input.as_bytes());
    assert_eq!(records[0].structure[0].text, "a&b <c>");
}

#[test]
fn records_before_malformed_input_are_kept() {
    let input = "<Liste><Statistik><KoeretoejIdent>1</KoeretoejIdent></Statistik>\
        <Statistik><KoeretoejIdent>2</Forkert></Statistik></Liste>";
    let records = process_document(input.as_bytes());
    assert_eq!(records.len(), 1);
    assert_eq!(records[0].structure[0].text, "1");
}

#[test]
fn input_that_is_no_xml_gives_no_records() {
    assert!(process_document(b"").is_empty());
    assert!(process_document(b"not xml at all").is_empty());
    assert!(process_document(b"<Statistik>").is_empty());
    assert!(process_document(&[0xff, 0xfe, 0x00]).is_empty());
}

#[test]
fn a_document_read_twice_gives_the_same_records() {
    let input = "<L><Statistik><A>1</A><A>2</A></Statistik></L>";
    assert_eq!(process_document(input.as_bytes()), process_document(input.as_bytes()));
}

#[test]
fn a_malformed_entity_ends_the_stream() {
    let input = "<L><Statistik><A>1</A></Statistik>\
        <Statistik><A>&bogus;</A></Statistik>\
        <Statistik><A>3</A></Statistik></L>";
    let records = process_document(input.as_bytes());
    assert_eq!(records.len(), 1);
    assert_eq!(records[0].structure[0].text, "1");
}

#[test]
fn character_data_sections_are_no_text() {
    let input = "<Statistik><A>x<![CDATA[<raw>]]>y</A></Statistik>";
    let records = process_document(input.as_bytes());
    assert_eq!(records.len(), 1);
    assert_eq!(records[0].structure[0].text, "xy");
}
