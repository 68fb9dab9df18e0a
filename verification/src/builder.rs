//! The streaming tree builder: a stack of open elements driven by parse
//! events, handing out one finished tree per top-level record.

use crate::record::{nodes_of, Node, Record};
use crate::schema::{standard_schema, Schema, SchemaView};
use vstd::prelude::*;

verus! {

/// One event of the upstream tokenizer.
#[derive(Debug, PartialEq, Eq)]
pub enum ParseEvent {
    /// An element opens; the field is its local name.
    Open(String),
    /// Character data; one run of text may arrive in several pieces.
    Text(String),
    /// The innermost open element closes.
    Close,
    /// Anything else the tokenizer reports (comments, whitespace, the
    /// document's start and end).
    Other,
    /// The tokenizer met malformed input.
    Malformed,
}

/// The mathematical value of a parse event.
pub ghost enum Event {
    Open(Seq<char>),
    Text(Seq<char>),
    Close,
    Other,
    Malformed,
}

impl View for ParseEvent {
    type V = Event;

    open spec fn view(&self) -> Event {
        match self {
            ParseEvent::Open(name) => Event::Open(name@),
            ParseEvent::Text(text) => Event::Text(text@),
            ParseEvent::Close => Event::Close,
            ParseEvent::Other => Event::Other,
            ParseEvent::Malformed => Event::Malformed,
        }
    }
}

/// The values of a sequence of parse events.
pub open spec fn events_of(events: Seq<ParseEvent>) -> Seq<Event> {
    Seq::new(events.len(), |i: int| events[i]@)
}

/// The stack of open elements after `event`, innermost last.
///
/// An element opens only inside a record or as a record's root, and is
/// classified by the schema; text goes to the innermost open element; a
/// closing element leaves the stack and, unless it was the last one,
/// becomes the last child of the one below. Everything else leaves the
/// stack as it is.
pub open spec fn stack_step(schema: SchemaView, stack: Seq<Node>, event: Event) -> Seq<Node> {
    match event {
        Event::Open(name) => if stack.len() > 0 || name == schema.root {
            stack.push(Node::opened(name, schema.classify(name)))
        } else {
            stack
        },
        Event::Text(text) => if stack.len() > 0 {
            stack.drop_last().push(stack.last().with_text(text))
        } else {
            stack
        },
        Event::Close => if stack.len() >= 2 {
            stack.drop_last().drop_last().push(
                stack[stack.len() - 2].with_child(stack.last()),
            )
        } else {
            Seq::empty()
        },
        _ => stack,
    }
}

/// The record that `event` completes, if any: the element that closes
/// while it is the only one open.
pub open spec fn record_step(stack: Seq<Node>, event: Event) -> Option<Node> {
    if event is Close && stack.len() == 1 {
        Some(stack[0])
    } else {
        None
    }
}

/// The stack after all of `events`, starting from `stack`.
pub open spec fn stack_after(schema: SchemaView, stack: Seq<Node>, events: Seq<Event>) -> Seq<
    Node,
>
    decreases events.len(),
{
    if events.len() == 0 {
        stack
    } else {
        stack_step(schema, stack_after(schema, stack, events.drop_last()), events.last())
    }
}

/// The records completed during `events`, in order, starting from `stack`.
pub open spec fn records_from(schema: SchemaView, stack: Seq<Node>, events: Seq<Event>) -> Seq<
    Node,
>
    decreases events.len(),
{
    if events.len() == 0 {
        Seq::empty()
    } else {
        let before = records_from(schema, stack, events.drop_last());
        match record_step(stack_after(schema, stack, events.drop_last()), events.last()) {
            Some(record) => before.push(record),
            None => before,
        }
    }
}

/// What is done when the tokenizer reports malformed input.
#[derive(Clone, Copy, Debug, PartialEq, Eq, Structural)]
pub enum ErrorPolicy {
    /// The malformed event is passed over, and reading goes on.
    Continue,
    /// Reading ends before the malformed event.
    Abort,
}

impl ErrorPolicy {
    /// Reading ends before `event`.
    pub open spec fn ends_before(self, event: Event) -> bool {
        self == ErrorPolicy::Abort && event is Malformed
    }

    /// Whether reading ends before `event`.
    pub fn stops_at(&self, event: &ParseEvent) -> (stop: bool)
        ensures
            stop == self.ends_before(event@),
    {
        match (self, event) {
            (ErrorPolicy::Abort, ParseEvent::Malformed) => true,
            _ => false,
        }
    }
}

/// The events before which reading has not ended: all of them, or those
/// before the first one that ends it.
pub open spec fn taken(policy: ErrorPolicy, events: Seq<Event>) -> Seq<Event> {
    if exists|i: int| 0 <= i < events.len() && policy.ends_before(#[trigger] events[i]) {
        let first = choose|i: int|
            0 <= i < events.len() && policy.ends_before(#[trigger] events[i]) && forall|j: int|
                0 <= j < i ==> !policy.ends_before(#[trigger] events[j]);
        events.take(first)
    } else {
        events
    }
}

/// What is taken is a prefix of the events in which nothing ends
/// reading; where malformed events are passed over, all events are taken.
pub proof fn lemma_taken_is_a_prefix(policy: ErrorPolicy, events: Seq<Event>)
    ensures
        taken(policy, events).is_prefix_of(events),
        forall|i: int|
            0 <= i < taken(policy, events).len() ==> !policy.ends_before(
                #[trigger] taken(policy, events)[i],
            ),
        taken(ErrorPolicy::Continue, events) == events,
        taken(policy, events).len() < events.len() ==> policy.ends_before(
            events[taken(policy, events).len() as int],
        ),
{
    if exists|i: int| 0 <= i < events.len() && policy.ends_before(#[trigger] events[i]) {
        let some = choose|i: int| 0 <= i < events.len() && policy.ends_before(#[trigger] events[i]);
        lemma_first_ending(policy, events, some);
    }
}

/// Where an event ends reading, there is a first one that does.
proof fn lemma_first_ending(policy: ErrorPolicy, events: Seq<Event>, some: int)
    requires
        0 <= some < events.len(),
        policy.ends_before(events[some]),
    ensures
        exists|i: int|
            0 <= i < events.len() && policy.ends_before(#[trigger] events[i]) && forall|j: int|
                0 <= j < i ==> !policy.ends_before(#[trigger] events[j]),
    decreases some,
{
    if exists|j: int| 0 <= j < some && policy.ends_before(#[trigger] events[j]) {
        let earlier = choose|j: int| 0 <= j < some && policy.ends_before(#[trigger] events[j]);
        lemma_first_ending(policy, events, earlier);
    }
}

/// The elements that an idle builder has open after `events`.
pub open spec fn open_after(schema: SchemaView, events: Seq<Event>) -> Seq<Node> {
    stack_after(schema, Seq::empty(), events)
}

/// The records that an idle builder completes during `events`, in order.
pub open spec fn records_of(schema: SchemaView, events: Seq<Event>) -> Seq<Node> {
    records_from(schema, Seq::empty(), events)
}

/// The mathematical value of a builder.
pub ghost struct BuilderView {
    /// The schema by which opening elements are classified.
    pub schema: SchemaView,
    /// The elements that are open, innermost last.
    pub stack: Seq<Node>,
}

/// The builder's state: its schema and the elements that are open,
/// innermost last. With an empty stack the builder is idle, between two
/// records.
#[derive(Debug)]
pub struct Builder {
    schema: Schema,
    stack: Vec<Record>,
}

impl View for Builder {
    type V = BuilderView;

    closed spec fn view(&self) -> BuilderView {
        BuilderView { schema: self.schema@, stack: nodes_of(self.stack@) }
    }
}

impl Builder {
    /// An idle builder for the built-in schema.
    pub fn new() -> (builder: Builder)
        ensures
            builder@ == (BuilderView { schema: standard_schema(), stack: Seq::empty() }),
    {
        Builder::with_schema(Schema::standard())
    }

    /// An idle builder for `schema`.
    pub fn with_schema(schema: Schema) -> (builder: Builder)
        ensures
            builder@ == (BuilderView { schema: schema@, stack: Seq::empty() }),
    {
        let builder = Builder { schema, stack: Vec::new() };
        assert(builder@.stack =~= Seq::empty());
        builder
    }

    /// The number of open elements.
    pub fn depth(&self) -> (depth: usize)
        ensures
            depth == self@.stack.len(),
    {
        self.stack.len()
    }

    /// Whether the builder is between two records.
    pub fn is_idle(&self) -> (idle: bool)
        ensures
            idle == (self@.stack.len() == 0),
    {
        self.stack.len() == 0
    }

    /// Takes one event, and hands out the record that it completes.
    pub fn step(&mut self, event: &ParseEvent) -> (done: Option<Record>)
        ensures
            final(self)@ == (BuilderView {
                schema: old(self)@.schema,
                stack: stack_step(old(self)@.schema, old(self)@.stack, event@),
            }),
            match done {
                Some(record) => record_step(old(self)@.stack, event@) == Some(record@),
                None => record_step(old(self)@.stack, event@) is None,
            },
    {
        match event {
            ParseEvent::Open(name) => {
                if self.stack.len() > 0 || self.schema.is_root(name.as_str()) {
                    let record = Record::classified(
                        name.as_str(),
                        self.schema.classify(name.as_str()),
                    );
                    self.stack.push(record);
                    assert(self@.stack =~= old(self)@.stack.push(record@));
                }
                None
            },
            ParseEvent::Text(text) => {
                if let Some(mut record) = self.stack.pop() {
                    let ghost before = record@;
                    record.add_text(text.as_str());
                    self.stack.push(record);
                    assert(self@.stack =~= old(self)@.stack.drop_last().push(
                        before.with_text(text@),
                    ));
                }
                None
            },
            ParseEvent::Close => {
                if let Some(record) = self.stack.pop() {
                    if let Some(mut parent) = self.stack.pop() {
                        let ghost before = parent@;
                        parent.add_child(record);
                        self.stack.push(parent);
                        assert(self@.stack =~= old(self)@.stack.drop_last().drop_last().push(
                            before.with_child(record@),
                        ));
                        None
                    } else {
                        assert(self@.stack =~= Seq::empty());
                        Some(record)
                    }
                } else {
                    assert(self@.stack =~= Seq::empty());
                    None
                }
            },
            _ => None,
        }
    }
}

/// Runs an idle builder for the built-in schema over `events` and
/// collects the completed records. Malformed events are passed over. An
/// element still open at the end of the events is left out.
pub fn process(events: &[ParseEvent]) -> (records: Vec<Record>)
    ensures
        nodes_of(records@) == records_of(standard_schema(), events_of(events@)),
{
    process_with(Schema::standard(), ErrorPolicy::Continue, events)
}

/// Runs an idle builder for `schema` over the events that `policy` lets
/// it take, and collects the completed records. An element still open
/// where reading ends is left out.
pub fn process_with(schema: Schema, policy: ErrorPolicy, events: &[ParseEvent]) -> (records: Vec<
    Record,
>)
    ensures
        nodes_of(records@) == records_of(schema@, taken(policy, events_of(events@))),
{
    let ghost given = schema@;
    let mut builder = Builder::with_schema(schema);
    let mut records: Vec<Record> = Vec::new();
    let ghost all = events_of(events@);
    let mut i: usize = 0;
    assert(nodes_of(records@) =~= Seq::empty());
    while i < events.len() && !policy.stops_at(&events[i])
        invariant
            i <= events.len(),
            all == events_of(events@),
            forall|j: int| 0 <= j < i ==> !policy.ends_before(#[trigger] all[j]),
            builder@.schema == given,
            builder@.stack == open_after(given, all.take(i as int)),
            nodes_of(records@) == records_of(given, all.take(i as int)),
        decreases events.len() - i,
    {
        let ghost before = nodes_of(records@);
        assert(all.take(i + 1).drop_last() =~= all.take(i as int));
        assert(all.take(i + 1).last() == events[i as int]@);
        if let Some(record) = builder.step(&events[i]) {
            records.push(record);
            assert(nodes_of(records@) =~= before.push(record@));
        }
        i += 1;
    }
    proof {
        if i < events.len() {
            assert(policy.ends_before(all[i as int]));
        } else {
            assert(all.take(i as int) =~= all);
        }
        assert(taken(policy, all) == all.take(i as int));
    }
    records
}

} // verus!
