use statistik_import::schema::{
    classify, is_array, is_struct, Classification, Schema, LIST_NAMES, ROOT_TAG, STRUCTURED_NAMES,
};

fn names(list: &[&str]) -> Vec<String> {
    list.iter().map(|name| String::from(*name)).collect()
}

#[test]
fn root_tag_is_a_structured_object() {
    assert_eq!(ROOT_TAG, "Statistik");
    let schema = Schema::standard();
    assert!(schema.is_root("Statistik"));
    assert!(!schema.is_root("statistik"));
    assert!(!schema.is_root("Statistik "));
    assert!(!schema.is_root(""));
    assert!(is_struct("Statistik"));
    assert!(!is_array("Statistik"));
    assert_eq!(classify("Statistik"), Classification::StructuredObject);
}

#[test]
fn unknown_names_are_scalars() {
    assert_eq!(classify("KoeretoejIdent"), Classification::Scalar);
    assert_eq!(classify(""), Classification::Scalar);
    assert_eq!(classify("model"), Classification::Scalar);
    assert_eq!(classify("Statistik2"), Classification::Scalar);
    assert_eq!(classify("Køretøj"), Classification::Scalar);
    assert!(!is_struct("KoeretoejIdent"));
    assert!(!is_array("KoeretoejIdent"));
}

#[test]
fn structured_names_that_are_no_lists_are_objects() {
    assert_eq!(classify("Model"), Classification::StructuredObject);
    assert_eq!(classify("Variant"), Classification::StructuredObject);
    assert_eq!(classify("Type"), Classification::StructuredObject);
    assert_eq!(classify("EjerBruger"), Classification::StructuredObject);
    assert_eq!(classify("PENummerCVR"), Classification::StructuredObject);
    assert_eq!(classify("KoeretoejUdstyrSamlingStruktur"), Classification::StructuredObject);
}

#[test]
fn list_names_are_ordered_lists() {
    assert_eq!(LIST_NAMES.len(), 7);
    for name in LIST_NAMES {
        assert!(is_array(name));
        assert_eq!(classify(name), Classification::OrderedList);
    }
    assert_eq!(classify("EjerBrugerSamling"), Classification::OrderedList);
    assert_eq!(classify("TilladelseSamling"), Classification::OrderedList);
}

#[test]
fn every_list_name_is_a_structured_name() {
    for name in LIST_NAMES {
        assert!(STRUCTURED_NAMES.contains(&name));
        assert!(is_struct(name));
    }
}

#[test]
fn every_structured_name_is_found() {
    assert_eq!(STRUCTURED_NAMES.len(), 48);
    for name in STRUCTURED_NAMES {
        assert!(is_struct(name));
        assert_ne!(classify(name), Classification::Scalar);
    }
}

#[test]
fn structured_names_occur_once() {
    for (i, name) in STRUCTURED_NAMES.iter().enumerate() {
        for other in &STRUCTURED_NAMES[i + 1..] {
            assert_ne!(name, other);
        }
    }
}

#[test]
fn a_prefix_of_a_name_is_another_name() {
    assert_eq!(classify("KoeretoejUdstyrSamling"), Classification::OrderedList);
    assert_eq!(classify("KoeretoejUdstyrSamlin"), Classification::Scalar);
    assert_eq!(classify("KoeretoejUdstyrSamlingS"), Classification::Scalar);
}

#[test]
fn classification_does_not_change() {
    for name in ["Statistik", "EjerBrugerSamling", "KoeretoejIdent"] {
        assert_eq!(classify(name), classify(name));
    }
}

#[test]
fn the_standard_schema_classifies_as_the_tables_do() {
    let schema = Schema::standard();
    for name in STRUCTURED_NAMES {
        assert_eq!(schema.classify(name), classify(name));
    }
    for name in ["KoeretoejIdent", "", "statistik", "Samling"] {
        assert_eq!(schema.classify(name), Classification::Scalar);
    }
    assert!(schema.is_root("Statistik"));
    assert!(!schema.is_root("Model"));
    assert!(schema.is_consistent());
}

#[test]
fn another_schema_classifies_by_its_own_lists() {
    let schema = Schema::new("Bil", names(&["Bil", "Ejere", "Ejer"]), names(&["Ejere"]));
    assert!(schema.is_root("Bil"));
    assert!(!schema.is_root("Statistik"));
    assert_eq!(schema.classify("Bil"), Classification::StructuredObject);
    assert_eq!(schema.classify("Ejer"), Classification::StructuredObject);
    assert_eq!(schema.classify("Ejere"), Classification::OrderedList);
    assert_eq!(schema.classify("Statistik"), Classification::Scalar);
    assert_eq!(schema.classify("EjerBrugerSamling"), Classification::Scalar);
    assert!(schema.is_consistent());
}

#[test]
fn a_list_name_that_is_not_structured_is_a_scalar() {
    let schema = Schema::new("Bil", names(&["Bil"]), names(&["Ejere", "Bil"]));
    assert_eq!(schema.classify("Ejere"), Classification::Scalar);
    assert_eq!(schema.classify("Bil"), Classification::OrderedList);
    assert!(!schema.is_consistent());
}

#[test]
fn an_empty_schema_knows_scalars_only() {
    let schema = Schema::new("", Vec::new(), Vec::new());
    assert_eq!(schema.classify("Statistik"), Classification::Scalar);
    assert_eq!(schema.classify(""), Classification::Scalar);
    assert!(schema.is_root(""));
    assert!(schema.is_consistent());
}
