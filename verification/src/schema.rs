//! The schema: which element names carry structure, and which of those
//! are lists. The registry's own schema is built in; a schema is a value,
//! so another one can be put in its place.

use crate::text::str_eq;
use vstd::prelude::*;
use vstd::string::*;

verus! {

/// The tag that opens a top-level record.
pub const ROOT_TAG: &'static str = "Statistik";

/// Names of the elements whose value is made of their children.
pub const STRUCTURED_NAMES: [&'static str; 48] = [
    "Statistik",
    "KoeretoejAnvendelseStruktur",
    "KoeretoejOplysningGrundStruktur",
    "KoeretoejBetegnelseStruktur",
    "Model",
    "Variant",
    "Type",
    "KoeretoejFarveStruktur",
    "FarveTypeStruktur",
    "KarrosseriTypeStruktur",
    "KoeretoejNormStruktur",
    "NormTypeStruktur",
    "KoeretoejMiljoeOplysningStruktur",
    "KoeretoejMotorStruktur",
    "DrivkraftTypeStruktur",
    "EjerBrugerSamling",
    "EjerBruger",
    "EjerBrugerForholdGrundStruktur",
    "TilladelseSamling",
    "Tilladelse",
    "TilladelseStruktur",
    "TilladelseTypeStruktur",
    "KoeretoejSupplerendeKarrosseriSamlingStruktur",
    "KoeretoejSupplerendeKarrosseriSamling",
    "KoeretoejSupplerendeKarrosseriTypeStruktur",
    "SynResultatStruktur",
    "KoeretoejBlokeringAarsagListeStruktur",
    "KoeretoejBlokeringAarsagListe",
    "KoeretoejBlokeringAarsag",
    "KoeretoejUdstyrSamlingStruktur",
    "KoeretoejUdstyrSamling",
    "KoeretoejUdstyrStruktur",
    "KoeretoejUdstyrTypeStruktur",
    "DispensationTypeSamlingStruktur",
    "DispensationTypeSamling",
    "DispensationTypeStruktur",
    "TilladelseTypeDetaljeValg",
    "KunGodkendtForJuridiskEnhed",
    "JuridiskEnhedIdentifikatorStruktur",
    "JuridiskEnhedValg",
    "KoeretoejAnvendelseSamlingStruktur",
    "KoeretoejAnvendelseSamling",
    "KoeretoejFastKombination",
    "FastTilkobling",
    "VariabelKombination",
    "KoeretoejGenerelIdentifikatorStruktur",
    "KoeretoejGenerelIdentifikatorValg",
    "PENummerCVR",
];

/// Names of the structured elements whose children form an ordered list.
pub const LIST_NAMES: [&'static str; 7] = [
    "DispensationTypeSamling",
    "EjerBrugerSamling",
    "KoeretoejAnvendelseSamling",
    "KoeretoejBlokeringAarsagListe",
    "KoeretoejSupplerendeKarrosseriSamling",
    "KoeretoejUdstyrSamling",
    "TilladelseSamling",
];

/// How an element's value is read off the document tree.
#[derive(Clone, Copy, Debug, PartialEq, Eq, Structural)]
pub enum Classification {
    /// A leaf: the value is the element's text.
    Scalar,
    /// A map from child name to child value.
    StructuredObject,
    /// The children's values, in document order.
    OrderedList,
}

/// `name` is one of the structured names.
pub open spec fn is_struct_name(name: Seq<char>) -> bool {
    exists|i: int| 0 <= i < 48 && (#[trigger] STRUCTURED_NAMES[i])@ == name
}

/// `name` is one of the list names.
pub open spec fn is_array_name(name: Seq<char>) -> bool {
    exists|i: int| 0 <= i < 7 && (#[trigger] LIST_NAMES[i])@ == name
}

/// The classification of an element name: a name outside the structured
/// names is a scalar, whatever the list names say of it.
pub open spec fn classification_of(name: Seq<char>) -> Classification {
    if !is_struct_name(name) {
        Classification::Scalar
    } else if is_array_name(name) {
        Classification::OrderedList
    } else {
        Classification::StructuredObject
    }
}

/// Whether the value of an element called `name` is made of its children.
pub fn is_struct(name: &str) -> (found: bool)
    ensures
        found == is_struct_name(name@),
{
    let mut i: usize = 0;
    while i < 48
        invariant
            i <= 48,
            forall|j: int| 0 <= j < i ==> (#[trigger] STRUCTURED_NAMES[j])@ != name@,
        decreases 48 - i,
    {
        if str_eq(name, STRUCTURED_NAMES[i]) {
            return true;
        }
        i += 1;
    }
    false
}

/// Whether an element called `name` is on the list names.
pub fn is_array(name: &str) -> (found: bool)
    ensures
        found == is_array_name(name@),
{
    let mut i: usize = 0;
    while i < 7
        invariant
            i <= 7,
            forall|j: int| 0 <= j < i ==> (#[trigger] LIST_NAMES[j])@ != name@,
        decreases 7 - i,
    {
        if str_eq(name, LIST_NAMES[i]) {
            return true;
        }
        i += 1;
    }
    false
}

/// Classifies an element name. Total: an unknown name is a scalar.
pub fn classify(name: &str) -> (class: Classification)
    ensures
        class == classification_of(name@),
{
    if !is_struct(name) {
        Classification::Scalar
    } else if is_array(name) {
        Classification::OrderedList
    } else {
        Classification::StructuredObject
    }
}

/// The mathematical value of a schema.
pub ghost struct SchemaView {
    /// The tag that opens a top-level record.
    pub root: Seq<char>,
    /// The names of the elements whose value is made of their children.
    pub structured: Set<Seq<char>>,
    /// The names of the elements whose children form an ordered list.
    pub lists: Set<Seq<char>>,
}

impl SchemaView {
    /// The classification of an element name: a name outside the
    /// structured names is a scalar, whatever the list names say of it.
    pub open spec fn classify(self, name: Seq<char>) -> Classification {
        if !self.structured.contains(name) {
            Classification::Scalar
        } else if self.lists.contains(name) {
            Classification::OrderedList
        } else {
            Classification::StructuredObject
        }
    }

    /// Every list name is a structured name.
    pub open spec fn is_consistent(self) -> bool {
        self.lists.subset_of(self.structured)
    }
}

/// The set of the names in a list.
pub open spec fn names_in(names: Seq<String>) -> Set<Seq<char>> {
    Set::new(
        |name: Seq<char>| exists|i: int| 0 <= i < names.len() && (#[trigger] names[i])@ == name,
    )
}

/// The registry's schema: the root tag, the structured names and the
/// list names that are built in.
pub open spec fn standard_schema() -> SchemaView {
    SchemaView {
        root: ROOT_TAG@,
        structured: Set::new(|name: Seq<char>| is_struct_name(name)),
        lists: Set::new(|name: Seq<char>| is_array_name(name)),
    }
}

/// A schema: the tag of a record, and the two lists of names by which
/// elements are classified. It does not change once it is made.
#[derive(Debug)]
pub struct Schema {
    root: String,
    structured: Vec<String>,
    lists: Vec<String>,
}

impl View for Schema {
    type V = SchemaView;

    closed spec fn view(&self) -> SchemaView {
        SchemaView {
            root: self.root@,
            structured: names_in(self.structured@),
            lists: names_in(self.lists@),
        }
    }
}

/// Whether `name` is one of `names`.
fn is_listed(names: &Vec<String>, name: &str) -> (found: bool)
    ensures
        found == names_in(names@).contains(name@),
{
    let mut i: usize = 0;
    while i < names.len()
        invariant
            i <= names@.len(),
            forall|j: int| 0 <= j < i ==> (#[trigger] names[j])@ != name@,
        decreases names@.len() - i,
    {
        if str_eq(names[i].as_str(), name) {
            return true;
        }
        i += 1;
    }
    false
}

/// The strings of a table of names.
fn owned(table: &[&'static str]) -> (names: Vec<String>)
    ensures
        names@.len() == table@.len(),
        forall|i: int| 0 <= i < table@.len() ==> (#[trigger] names[i])@ == table[i]@,
{
    let mut names: Vec<String> = Vec::new();
    let mut i: usize = 0;
    while i < table.len()
        invariant
            i <= table@.len(),
            names@.len() == i,
            forall|j: int| 0 <= j < i ==> (#[trigger] names[j])@ == table[j]@,
        decreases table@.len() - i,
    {
        names.push(String::from_str(table[i]));
        i += 1;
    }
    names
}

impl Schema {
    /// A schema with the root tag `root`, in which the names in
    /// `structured` are structured and those in `lists` are list names.
    pub fn new(root: &str, structured: Vec<String>, lists: Vec<String>) -> (schema: Schema)
        ensures
            schema@ == (SchemaView {
                root: root@,
                structured: names_in(structured@),
                lists: names_in(lists@),
            }),
    {
        Schema { root: String::from_str(root), structured, lists }
    }

    /// The registry's schema.
    pub fn standard() -> (schema: Schema)
        ensures
            schema@ == standard_schema(),
    {
        let structured = owned(STRUCTURED_NAMES.as_slice());
        let lists = owned(LIST_NAMES.as_slice());
        proof {
            assert(names_in(structured@) =~= standard_schema().structured) by {
                assert forall|name: Seq<char>| names_in(structured@).contains(name)
                    <==> is_struct_name(name) by {
                    if names_in(structured@).contains(name) {
                        let i = choose|i: int|
                            0 <= i < structured@.len() && (#[trigger] structured[i])@ == name;
                        assert(STRUCTURED_NAMES[i]@ == name);
                    }
                    if is_struct_name(name) {
                        let i = choose|i: int|
                            0 <= i < 48 && (#[trigger] STRUCTURED_NAMES[i])@ == name;
                        assert(structured[i]@ == name);
                    }
                }
            }
            assert(names_in(lists@) =~= standard_schema().lists) by {
                assert forall|name: Seq<char>| names_in(lists@).contains(name) <==> is_array_name(
                    name,
                ) by {
                    if names_in(lists@).contains(name) {
                        let i = choose|i: int|
                            0 <= i < lists@.len() && (#[trigger] lists[i])@ == name;
                        assert(LIST_NAMES[i]@ == name);
                    }
                    if is_array_name(name) {
                        let i = choose|i: int| 0 <= i < 7 && (#[trigger] LIST_NAMES[i])@ == name;
                        assert(lists[i]@ == name);
                    }
                }
            }
        }
        Schema { root: String::from_str(ROOT_TAG), structured, lists }
    }

    /// Whether `name` is the tag of a top-level record.
    pub fn is_root(&self, name: &str) -> (root: bool)
        ensures
            root == (name@ == self@.root),
    {
        str_eq(name, self.root.as_str())
    }

    /// Classifies an element name. Total: an unknown name is a scalar.
    pub fn classify(&self, name: &str) -> (class: Classification)
        ensures
            class == self@.classify(name@),
    {
        if !is_listed(&self.structured, name) {
            Classification::Scalar
        } else if is_listed(&self.lists, name) {
            Classification::OrderedList
        } else {
            Classification::StructuredObject
        }
    }

    /// Whether every list name is a structured name.
    pub fn is_consistent(&self) -> (consistent: bool)
        ensures
            consistent == self@.is_consistent(),
    {
        let mut i: usize = 0;
        while i < self.lists.len()
            invariant
                i <= self.lists@.len(),
                forall|j: int|
                    0 <= j < i ==> names_in(self.structured@).contains((#[trigger] self.lists[j])@),
            decreases self.lists@.len() - i,
        {
            if !is_listed(&self.structured, self.lists[i].as_str()) {
                assert(names_in(self.lists@).contains(self.lists[i as int]@));
                return false;
            }
            i += 1;
        }
        true
    }
}

/// The built-in schema classifies as the built-in tables do.
pub proof fn lemma_standard_schema(name: Seq<char>)
    ensures
        standard_schema().classify(name) == classification_of(name),
        standard_schema().is_consistent(),
{
    assert forall|list: Seq<char>| standard_schema().lists.contains(list) implies standard_schema(
    ).structured.contains(list) by {
        lemma_list_names_are_structured(list);
    }
}

/// Every list name is a structured name, so no list name is classified as
/// a scalar.
pub proof fn lemma_list_names_are_structured(name: Seq<char>)
    requires
        is_array_name(name),
    ensures
        is_struct_name(name),
        classification_of(name) == Classification::OrderedList,
{
    assert(STRUCTURED_NAMES[34]@ == LIST_NAMES[0]@);
    assert(STRUCTURED_NAMES[15]@ == LIST_NAMES[1]@);
    assert(STRUCTURED_NAMES[41]@ == LIST_NAMES[2]@);
    assert(STRUCTURED_NAMES[27]@ == LIST_NAMES[3]@);
    assert(STRUCTURED_NAMES[23]@ == LIST_NAMES[4]@);
    assert(STRUCTURED_NAMES[30]@ == LIST_NAMES[5]@);
    assert(STRUCTURED_NAMES[18]@ == LIST_NAMES[6]@);
}

/// The root tag is a structured object.
pub proof fn lemma_root_is_structured_object()
    ensures
        classification_of(ROOT_TAG@) == Classification::StructuredObject,
{
    assert(STRUCTURED_NAMES[0]@ == ROOT_TAG@);
    reveal_strlit("Statistik");
    reveal_strlit("DispensationTypeSamling");
    reveal_strlit("EjerBrugerSamling");
    reveal_strlit("KoeretoejAnvendelseSamling");
    reveal_strlit("KoeretoejBlokeringAarsagListe");
    reveal_strlit("KoeretoejSupplerendeKarrosseriSamling");
    reveal_strlit("KoeretoejUdstyrSamling");
    reveal_strlit("TilladelseSamling");
    assert forall|i: int| 0 <= i < 7 implies (#[trigger] LIST_NAMES[i])@ != ROOT_TAG@ by {
        assert(LIST_NAMES[i]@.len() != ROOT_TAG@.len());
    }
}

} // verus!
