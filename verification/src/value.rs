//! The generic tagged value that a record is rendered to, and from which
//! every sink's own representation is made.

use crate::text::str_eq;
use vstd::prelude::*;

verus! {

/// The mathematical value of a rendered document.
pub ghost enum ValueView {
    /// A leaf's text.
    Text(Seq<char>),
    /// A signed number.
    Integer(i64),
    /// An unsigned number.
    Unsigned(u64),
    /// Values in document order.
    List(Seq<ValueView>),
    /// Values by field name.
    Object(Map<Seq<char>, ValueView>),
}

/// A rendered document.
#[derive(Debug)]
pub enum Value {
    /// A leaf's text.
    Text(String),
    /// A signed number.
    Integer(i64),
    /// An unsigned number.
    Unsigned(u64),
    /// Values in document order.
    List(Vec<Value>),
    /// Values by field name.
    Object(Object),
}

/// One field of an object.
#[derive(Debug)]
pub(crate) struct Entry {
    pub(crate) key: String,
    pub(crate) value: Value,
}

/// A map from field names to values. No name occurs twice.
#[derive(Debug)]
pub struct Object {
    pub(crate) entries: Vec<Entry>,
}

/// The values of a sequence of documents.
pub open spec fn values_of(values: Seq<Value>) -> Seq<ValueView> {
    Seq::new(values.len(), |i: int| values[i]@)
}

impl View for Value {
    type V = ValueView;

    open spec fn view(&self) -> ValueView
        decreases self,
    {
        match self {
            Value::Text(text) => ValueView::Text(text@),
            Value::Integer(number) => ValueView::Integer(*number),
            Value::Unsigned(number) => ValueView::Unsigned(*number),
            Value::List(items) => ValueView::List(
                Seq::new(
                    items@.len(),
                    |i: int|
                        if 0 <= i < items@.len() {
                            items[i]@
                        } else {
                            arbitrary()
                        },
                ),
            ),
            Value::Object(object) => ValueView::Object(object@),
        }
    }
}

impl View for Object {
    type V = Map<Seq<char>, ValueView>;

    closed spec fn view(&self) -> Map<Seq<char>, ValueView>
        decreases self,
    {
        Map::new(
            |key: Seq<char>| self.holds(key),
            |key: Seq<char>|
                {
                    let i = self.position(key);
                    if 0 <= i < self.entries@.len() {
                        self.entries[i].value@
                    } else {
                        arbitrary()
                    }
                },
        )
    }
}

impl Value {
    /// What the view of a list is made of.
    pub proof fn lemma_view_list(items: Vec<Value>)
        ensures
            Value::List(items)@ == ValueView::List(values_of(items@)),
    {
        reveal_with_fuel(<Value as View>::view, 2);
        assert(Value::List(items)@->List_0 =~= values_of(items@));
    }
}

impl Object {
    #[verifier::type_invariant]
    spec fn keys_are_distinct(self) -> bool {
        forall|i: int, j: int|
            0 <= i < j < self.entries@.len() ==> self.entries[i].key@ != self.entries[j].key@
    }

    /// Some entry has the name `key`.
    spec fn holds(self, key: Seq<char>) -> bool {
        exists|i: int| 0 <= i < self.entries@.len() && self.entries[i].key@ == key
    }

    /// The place of an entry named `key`.
    spec fn position(self, key: Seq<char>) -> int {
        choose|i: int| 0 <= i < self.entries@.len() && self.entries[i].key@ == key
    }

    /// With distinct names, the entry at `i` is the one its name is
    /// looked up under.
    proof fn lemma_entry(self, i: int)
        requires
            self.keys_are_distinct(),
            0 <= i < self.entries@.len(),
        ensures
            self@.contains_key(self.entries[i].key@),
            self@[self.entries[i].key@] == self.entries[i].value@,
            self.position(self.entries[i].key@) == i,
    {
        reveal_with_fuel(<Object as View>::view, 2);
        let key = self.entries[i].key@;
        let found = self.position(key);
        assert(0 <= found < self.entries@.len() && self.entries[found].key@ == key);
        if found < i {
            assert(self.entries[found].key@ != self.entries[i].key@);
        } else if i < found {
            assert(self.entries[i].key@ != self.entries[found].key@);
        }
    }

    /// A name that no entry has is not a key.
    proof fn lemma_absent(self, key: Seq<char>)
        requires
            forall|i: int| 0 <= i < self.entries@.len() ==> self.entries[i].key@ != key,
        ensures
            !self@.contains_key(key),
    {
        reveal_with_fuel(<Object as View>::view, 2);
    }

    /// An object without fields.
    pub fn new() -> (object: Object)
        ensures
            object@ == Map::<Seq<char>, ValueView>::empty(),
    {
        let object = Object { entries: Vec::new() };
        proof {
            reveal_with_fuel(<Object as View>::view, 2);
            assert(object@ =~= Map::empty());
        }
        object
    }

    /// The place of the entry named `key`, if there is one.
    fn find(&self, key: &str) -> (place: Option<usize>)
        ensures
            match place {
                Some(i) => i < self.entries@.len() && self.entries[i as int].key@ == key@,
                None => forall|i: int|
                    0 <= i < self.entries@.len() ==> self.entries[i].key@ != key@,
            },
    {
        let mut i: usize = 0;
        while i < self.entries.len()
            invariant
                i <= self.entries@.len(),
                forall|j: int| 0 <= j < i ==> self.entries[j].key@ != key@,
            decreases self.entries@.len() - i,
        {
            if str_eq(self.entries[i].key.as_str(), key) {
                return Some(i);
            }
            i += 1;
        }
        None
    }

    /// Whether the object has a field called `key`.
    pub fn contains_key(&self, key: &str) -> (found: bool)
        ensures
            found == self@.contains_key(key@),
    {
        proof {
            use_type_invariant(self);
        }
        match self.find(key) {
            Some(i) => {
                proof {
                    self.lemma_entry(i as int);
                }
                true
            },
            None => {
                proof {
                    self.lemma_absent(key@);
                }
                false
            },
        }
    }

    /// The value of the field called `key`.
    pub fn get(&self, key: &str) -> (value: Option<&Value>)
        ensures
            match value {
                Some(value) => self@.contains_key(key@) && self@[key@] == value@,
                None => !self@.contains_key(key@),
            },
    {
        proof {
            use_type_invariant(self);
        }
        match self.find(key) {
            Some(i) => {
                proof {
                    self.lemma_entry(i as int);
                }
                Some(&self.entries[i].value)
            },
            None => {
                proof {
                    self.lemma_absent(key@);
                }
                None
            },
        }
    }

    /// Sets the field called `key` to `value`, whether or not the object
    /// had such a field.
    pub fn insert(&mut self, key: String, value: Value)
        ensures
            final(self)@ == old(self)@.insert(key@, value@),
    {
        proof {
            use_type_invariant(&*self);
        }
        let place = self.find(key.as_str());
        let ghost before = *self;
        let mut entries: Vec<Entry> = Vec::new();
        core::mem::swap(&mut self.entries, &mut entries);
        match place {
            Some(i) => {
                entries.set(i, Entry { key, value });
            },
            None => {
                entries.push(Entry { key, value });
            },
        }
        self.entries = entries;
        proof {
            let after = *self;
            assert(after.keys_are_distinct());
            assert forall|name: Seq<char>| after@.contains_key(name) <==> (name == key@
                || before@.contains_key(name)) by {
                reveal_with_fuel(<Object as View>::view, 2);
                if before.holds(name) {
                    let j = before.position(name);
                    assert(after.entries[j].key@ == name);
                }
                if after.holds(name) && name != key@ {
                    let j = after.position(name);
                    assert(before.entries[j].key@ == name);
                }
                if name == key@ {
                    match place {
                        Some(i) => {
                            assert(after.entries[i as int].key@ == name);
                        },
                        None => {
                            assert(after.entries[before.entries@.len() as int].key@ == name);
                        },
                    }
                }
            }
            assert forall|name: Seq<char>| after@.contains_key(name) implies after@[name]
                == before@.insert(key@, value@)[name] by {
                reveal_with_fuel(<Object as View>::view, 2);
                let j = after.position(name);
                assert(0 <= j < after.entries@.len() && after.entries[j].key@ == name);
                after.lemma_entry(j);
                if name != key@ {
                    assert(before.entries[j].key@ == name);
                    before.lemma_entry(j);
                    assert(before.entries[j] == after.entries[j]);
                } else {
                    match place {
                        Some(i) => {
                            after.lemma_entry(i as int);
                        },
                        None => {
                            after.lemma_entry(before.entries@.len() as int);
                        },
                    }
                }
            }
            assert(after@ =~= before@.insert(key@, value@));
        }
    }
}

} // verus!
