//! The document tree: one node per element of a record.

use crate::schema::{classification_of, classify, Classification, SchemaView};
use vstd::prelude::*;
use vstd::string::*;

verus! {

/// The mathematical value of a document node.
pub ghost struct Node {
    /// The element's name.
    pub name: Seq<char>,
    /// How the element's value is read.
    pub classification: Classification,
    /// The character data seen directly inside the element, concatenated.
    pub text: Seq<char>,
    /// The child elements, in document order.
    pub children: Seq<Node>,
}

impl Node {
    /// A node as it stands when its opening tag has just been seen:
    /// classified, without text or children.
    pub open spec fn opened(name: Seq<char>, classification: Classification) -> Node {
        Node { name, classification, text: Seq::empty(), children: Seq::empty() }
    }

    /// The node with `more` appended to its text.
    pub open spec fn with_text(self, more: Seq<char>) -> Node {
        Node { text: self.text + more, ..self }
    }

    /// The node with `child` attached behind its other children.
    pub open spec fn with_child(self, child: Node) -> Node {
        Node { children: self.children.push(child), ..self }
    }

    /// Every scalar of the tree is a leaf: it has no children.
    pub open spec fn scalars_are_leaves(self) -> bool
        decreases self,
    {
        &&& self.classification == Classification::Scalar ==> self.children.len() == 0
        &&& forall|i: int|
            0 <= i < self.children.len() ==> (#[trigger] self.children[i]).scalars_are_leaves()
    }

    /// Every node of the tree carries the classification that `schema`
    /// gives to its name.
    pub open spec fn follows_schema(self, schema: SchemaView) -> bool
        decreases self,
    {
        &&& self.classification == schema.classify(self.name)
        &&& forall|i: int|
            0 <= i < self.children.len() ==> (#[trigger] self.children[i]).follows_schema(
                schema,
            )
    }
}

/// One element of a record, with what was read inside it so far.
#[derive(Debug, PartialEq, Eq)]
pub struct Record {
    /// The element's name.
    pub element: String,
    /// The classification of `element`.
    pub classification: Classification,
    /// The character data read directly inside the element.
    pub text: String,
    /// The child elements, in document order.
    pub structure: Vec<Record>,
}

impl View for Record {
    type V = Node;

    open spec fn view(&self) -> Node
        decreases self,
    {
        Node {
            name: self.element@,
            classification: self.classification,
            text: self.text@,
            children: Seq::new(
                self.structure@.len(),
                |i: int|
                    if 0 <= i < self.structure@.len() {
                        self.structure[i]@
                    } else {
                        arbitrary()
                    },
            ),
        }
    }
}

/// The values of a sequence of records.
pub open spec fn nodes_of(records: Seq<Record>) -> Seq<Node> {
    Seq::new(records.len(), |i: int| records[i]@)
}

impl Record {
    /// What the view of a record is made of, field by field.
    pub proof fn lemma_view(self)
        ensures
            self@.name == self.element@,
            self@.classification == self.classification,
            self@.text == self.text@,
            self@.children == nodes_of(self.structure@),
    {
        reveal_with_fuel(<Record as View>::view, 2);
        assert(self@.children =~= nodes_of(self.structure@));
    }

    /// A fresh node for an element called `element`: classified by the
    /// built-in schema, without text or children.
    pub fn new(element: &str) -> (record: Record)
        ensures
            record@ == Node::opened(element@, classification_of(element@)),
    {
        Record::classified(element, classify(element))
    }

    /// A fresh node for an element called `element` with the given
    /// classification, without text or children.
    pub fn classified(element: &str, classification: Classification) -> (record: Record)
        ensures
            record@ == Node::opened(element@, classification),
    {
        let record = Record {
            element: String::from_str(element),
            classification,
            text: String::new(),
            structure: Vec::new(),
        };
        assert(record@.children =~= Seq::empty());
        record
    }

    /// Appends character data to the node's text.
    pub fn add_text(&mut self, text: &str)
        ensures
            final(self)@ == old(self)@.with_text(text@),
    {
        self.text.append(text);
        assert(self@.children =~= old(self)@.children);
    }

    /// Attaches `rec` as the last child.
    pub fn add_child(&mut self, rec: Record)
        ensures
            final(self)@ == old(self)@.with_child(rec@),
    {
        self.structure.push(rec);
        proof {
            reveal_with_fuel(<Record as View>::view, 2);
        }
        assert(self@.children =~= old(self)@.children.push(rec@));
    }
}

} // verus!
