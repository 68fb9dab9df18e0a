//! Rendering a document tree to the generic tagged value.

use crate::diagnostic::{notices_of, Diagnostic, Notice};
use crate::record::{nodes_of, Node, Record};
use crate::schema::Classification;
use crate::value::{values_of, Object, Value, ValueView};
use vstd::prelude::*;

verus! {

/// The value of a node: a scalar's text, a list's children in document
/// order, or an object's fields. A scalar's children and the text of a
/// list or an object do not count.
pub open spec fn render_value(node: Node) -> ValueView
    decreases node, 0nat,
{
    match node.classification {
        Classification::Scalar => ValueView::Text(node.text),
        Classification::OrderedList => ValueView::List(
            Seq::new(
                node.children.len(),
                |i: int|
                    if 0 <= i < node.children.len() {
                        render_value(node.children[i])
                    } else {
                        arbitrary()
                    },
            ),
        ),
        Classification::StructuredObject => ValueView::Object(
            render_fields(node.children, node.children.len()),
        ),
    }
}

/// The fields that the first `upto` of `children` give to an object: each
/// child in turn sets the field of its name, unless the field is there
/// already.
pub open spec fn render_fields(children: Seq<Node>, upto: nat) -> Map<Seq<char>, ValueView>
    decreases children, upto,
{
    if upto == 0 || upto > children.len() {
        Map::empty()
    } else {
        let before = render_fields(children, (upto - 1) as nat);
        let child = children[upto - 1];
        if before.contains_key(child.name) {
            before
        } else {
            before.insert(child.name, render_value(child))
        }
    }
}

/// What rendering a node reports, in the order of the walk through the
/// tree. A child that is left out is not rendered, so nothing is reported
/// from inside it.
pub open spec fn render_warnings(node: Node) -> Seq<Notice>
    decreases node, 0nat,
{
    match node.classification {
        Classification::Scalar => Seq::empty(),
        Classification::OrderedList => list_warnings(node.children, node.children.len()),
        Classification::StructuredObject => object_warnings(
            node.name,
            node.children,
            node.children.len(),
        ),
    }
}

/// What rendering the first `upto` items of a list reports.
pub open spec fn list_warnings(children: Seq<Node>, upto: nat) -> Seq<Notice>
    decreases children, upto,
{
    if upto == 0 || upto > children.len() {
        Seq::empty()
    } else {
        list_warnings(children, (upto - 1) as nat) + render_warnings(children[upto - 1])
    }
}

/// What rendering the first `upto` children of the object `parent`
/// reports: for a child whose field is there already, that it was left
/// out; for any other, what rendering it reports.
pub open spec fn object_warnings(parent: Seq<char>, children: Seq<Node>, upto: nat) -> Seq<
    Notice,
>
    decreases children, upto,
{
    if upto == 0 || upto > children.len() {
        Seq::empty()
    } else {
        let before = object_warnings(parent, children, (upto - 1) as nat);
        let child = children[upto - 1];
        if render_fields(children, (upto - 1) as nat).contains_key(child.name) {
            before.push(Notice::DuplicateField { parent, child: child.name })
        } else {
            before + render_warnings(child)
        }
    }
}

/// Among the first `upto` of `children`, how many have the name of an
/// earlier one.
pub open spec fn repeats(children: Seq<Node>, upto: nat) -> nat
    decreases upto,
{
    if upto == 0 || upto > children.len() {
        0
    } else {
        let before = repeats(children, (upto - 1) as nat);
        if render_fields(children, (upto - 1) as nat).contains_key(children[upto - 1].name) {
            before + 1
        } else {
            before
        }
    }
}

/// An object has a field for a name exactly when a child has that name.
pub proof fn lemma_fields_are_child_names(children: Seq<Node>, upto: nat, name: Seq<char>)
    requires
        upto <= children.len(),
    ensures
        render_fields(children, upto).contains_key(name) <==> exists|j: int|
            0 <= j < upto && (#[trigger] children[j]).name == name,
    decreases upto,
{
    if upto > 0 {
        lemma_fields_are_child_names(children, (upto - 1) as nat, name);
        if render_fields(children, upto).contains_key(name) {
            if !render_fields(children, (upto - 1) as nat).contains_key(name) {
                assert(children[upto - 1].name == name);
            }
        }
        if exists|j: int| 0 <= j < upto && (#[trigger] children[j]).name == name {
            let j = choose|j: int| 0 <= j < upto && (#[trigger] children[j]).name == name;
            if j < upto - 1 {
                assert(children[j].name == name);
            }
        }
    }
}

/// The first child of a name wins: the object's field of that name is the
/// rendering of the first child that has it, whatever follows.
pub proof fn lemma_first_child_wins(children: Seq<Node>, upto: nat, first: int)
    requires
        0 <= first < upto <= children.len(),
        forall|j: int| 0 <= j < first ==> (#[trigger] children[j]).name != children[first].name,
    ensures
        render_fields(children, upto).contains_key(children[first].name),
        render_fields(children, upto)[children[first].name] == render_value(children[first]),
    decreases upto,
{
    if upto - 1 == first {
        lemma_fields_are_child_names(children, (upto - 1) as nat, children[first].name);
    } else {
        lemma_first_child_wins(children, (upto - 1) as nat, first);
    }
}

/// Every child of an object either gives it a field or is a repeat: the
/// numbers of fields and of repeats add up to the number of children.
pub proof fn lemma_fields_and_repeats(children: Seq<Node>, upto: nat)
    requires
        upto <= children.len(),
    ensures
        render_fields(children, upto).dom().finite(),
        render_fields(children, upto).dom().len() + repeats(children, upto) == upto,
    decreases upto,
{
    if upto > 0 {
        lemma_fields_and_repeats(children, (upto - 1) as nat);
    }
}

/// Where the children that are kept report nothing themselves, an object
/// reports exactly one duplicate for each repeat.
pub proof fn lemma_one_warning_per_repeat(parent: Seq<char>, children: Seq<Node>, upto: nat)
    requires
        upto <= children.len(),
        forall|j: int| 0 <= j < upto ==> render_warnings(#[trigger] children[j]).len() == 0,
    ensures
        object_warnings(parent, children, upto).len() == repeats(children, upto),
    decreases upto,
{
    if upto > 0 {
        lemma_one_warning_per_repeat(parent, children, (upto - 1) as nat);
        assert(render_warnings(children[upto - 1]).len() == 0);
    }
}

/// Of two children with one name, an object keeps the first one's value
/// and reports the second as a duplicate, once.
pub proof fn lemma_second_of_two_is_dropped(node: Node)
    requires
        node.classification == Classification::StructuredObject,
        node.children.len() == 2,
        node.children[0].name == node.children[1].name,
    ensures
        render_value(node) == ValueView::Object(
            Map::empty().insert(node.children[0].name, render_value(node.children[0])),
        ),
        render_warnings(node) == render_warnings(node.children[0]).push(
            Notice::DuplicateField { parent: node.name, child: node.children[1].name },
        ),
{
    let children = node.children;
    let first = Map::<Seq<char>, ValueView>::empty().insert(
        children[0].name,
        render_value(children[0]),
    );
    assert(render_fields(children, 0) == Map::<Seq<char>, ValueView>::empty());
    assert(render_fields(children, 1) == first);
    assert(render_fields(children, 2) == first);
    assert(object_warnings(node.name, children, 0) == Seq::<Notice>::empty());
    assert(object_warnings(node.name, children, 1) =~= render_warnings(children[0]));
    assert(object_warnings(node.name, children, 2) == render_warnings(children[0]).push(
        Notice::DuplicateField { parent: node.name, child: children[1].name },
    ));
}

/// A list renders to as many items as it has children, each the
/// rendering of the child in its place; a list without children renders
/// to the empty list.
pub proof fn lemma_list_items(node: Node)
    requires
        node.classification == Classification::OrderedList,
    ensures
        render_value(node) is List,
        render_value(node)->List_0.len() == node.children.len(),
        forall|i: int|
            0 <= i < node.children.len() ==> (#[trigger] render_value(node)->List_0[i])
                == render_value(node.children[i]),
        node.children.len() == 0 ==> render_value(node) == ValueView::List(Seq::empty()),
{
    reveal_with_fuel(render_value, 2);
    if node.children.len() == 0 {
        assert(render_value(node)->List_0 =~= Seq::empty());
    }
}

/// A list without items is an empty list in its parent's fields, and is
/// not left out: where the first child of its name is such a list, the
/// object's field of that name is the empty list.
pub proof fn lemma_empty_list_is_a_field(parent: Node, place: int)
    requires
        parent.classification == Classification::StructuredObject,
        0 <= place < parent.children.len(),
        forall|j: int|
            0 <= j < place ==> (#[trigger] parent.children[j]).name
                != parent.children[place].name,
        parent.children[place].classification == Classification::OrderedList,
        parent.children[place].children.len() == 0,
    ensures
        render_value(parent) is Object,
        render_value(parent)->Object_0.contains_key(parent.children[place].name),
        render_value(parent)->Object_0[parent.children[place].name] == ValueView::List(
            Seq::empty(),
        ),
{
    lemma_first_child_wins(parent.children, parent.children.len(), place);
    lemma_list_items(parent.children[place]);
}

/// A rendered record: its value, and what was reported on the way.
#[derive(Debug)]
pub struct Rendering {
    /// The record's value.
    pub value: Value,
    /// The diagnostics, in the order of the walk through the tree.
    pub warnings: Vec<Diagnostic>,
}

impl Record {
    /// Renders the tree below this node.
    pub fn to_json(&self) -> (out: Rendering)
        ensures
            out.value@ == render_value(self@),
            notices_of(out.warnings@) == render_warnings(self@),
    {
        let mut warnings: Vec<Diagnostic> = Vec::new();
        assert(notices_of(warnings@) =~= Seq::empty());
        let value = self.render_into(&mut warnings);
        assert(Seq::<Notice>::empty() + render_warnings(self@) =~= render_warnings(self@));
        Rendering { value, warnings }
    }

    /// Renders the tree below this node and appends what it reports to
    /// `warnings`.
    fn render_into(&self, warnings: &mut Vec<Diagnostic>) -> (value: Value)
        ensures
            value@ == render_value(self@),
            notices_of(final(warnings)@) == notices_of(old(warnings)@) + render_warnings(self@),
        decreases self,
    {
        let ghost node = self@;
        let ghost reported = notices_of(warnings@);
        proof {
            self.lemma_view();
            reveal_with_fuel(render_value, 2);
        }
        match self.classification {
            Classification::Scalar => {
                assert(reported + render_warnings(node) =~= reported);
                Value::Text(self.text.clone())
            },
            Classification::OrderedList => {
                let mut items: Vec<Value> = Vec::new();
                let mut i: usize = 0;
                assert(reported + list_warnings(node.children, 0) =~= reported);
                while i < self.structure.len()
                    invariant
                        i <= self.structure@.len(),
                        node == self@,
                        node.children == nodes_of(self.structure@),
                        items@.len() == i,
                        forall|j: int|
                            0 <= j < i ==> (#[trigger] items[j])@ == render_value(
                                node.children[j],
                            ),
                        notices_of(warnings@) == reported + list_warnings(
                            node.children,
                            i as nat,
                        ),
                    decreases self.structure@.len() - i,
                {
                    let ghost so_far = list_warnings(node.children, i as nat);
                    let item = self.structure[i].render_into(warnings);
                    items.push(item);
                    assert((reported + so_far) + render_warnings(node.children[i as int])
                        =~= reported + (so_far + render_warnings(node.children[i as int])));
                    i += 1;
                }
                proof {
                    Value::lemma_view_list(items);
                    assert(values_of(items@) =~= render_value(node)->List_0);
                }
                Value::List(items)
            },
            Classification::StructuredObject => {
                let mut object = Object::new();
                let mut i: usize = 0;
                assert(reported + object_warnings(node.name, node.children, 0) =~= reported);
                while i < self.structure.len()
                    invariant
                        i <= self.structure@.len(),
                        node == self@,
                        node.name == self.element@,
                        node.children == nodes_of(self.structure@),
                        object@ == render_fields(node.children, i as nat),
                        notices_of(warnings@) == reported + object_warnings(
                            node.name,
                            node.children,
                            i as nat,
                        ),
                    decreases self.structure@.len() - i,
                {
                    let ghost so_far = object_warnings(node.name, node.children, i as nat);
                    let ghost before = notices_of(warnings@);
                    let child = &self.structure[i];
                    proof {
                        child.lemma_view();
                    }
                    if object.contains_key(child.element.as_str()) {
                        let duplicate = Diagnostic::DuplicateField {
                            parent: self.element.clone(),
                            child: child.element.clone(),
                        };
                        warnings.push(duplicate);
                        assert(notices_of(warnings@) =~= before.push(duplicate@));
                        assert((reported + so_far).push(duplicate@) =~= reported + so_far.push(
                            duplicate@,
                        ));
                    } else {
                        let field = child.render_into(warnings);
                        object.insert(child.element.clone(), field);
                        assert((reported + so_far) + render_warnings(child@) =~= reported + (
                        so_far + render_warnings(child@)));
                    }
                    i += 1;
                }
                Value::Object(object)
            },
        }
    }
}

} // verus!
