//! Well-nested event streams, and what the builder makes of them.

use crate::builder::{
    open_after, record_step, records_from, records_of, stack_after, stack_step, Event,
};
use crate::record::Node;
use crate::schema::{Classification, SchemaView};
use vstd::prelude::*;

verus! {

/// The number of opening events minus the number of closing ones.
pub open spec fn excess(events: Seq<Event>) -> int
    decreases events.len(),
{
    if events.len() == 0 {
        0
    } else {
        excess(events.drop_last()) + match events.last() {
            Event::Open(_) => 1int,
            Event::Close => -1int,
            _ => 0int,
        }
    }
}

/// No prefix of `events` closes more elements than it has opened.
pub open spec fn never_closes_early(events: Seq<Event>) -> bool {
    forall|k: int| 0 <= k <= events.len() ==> excess(#[trigger] events.take(k)) >= 0
}

/// `events` is the content of an element: whatever opens in it closes in
/// it, and nothing else closes.
pub open spec fn is_content(events: Seq<Event>) -> bool {
    excess(events) == 0 && never_closes_early(events)
}

/// `events` is one whole element: an opening event, content, and the
/// closing event.
pub open spec fn is_element(events: Seq<Event>) -> bool {
    &&& events.len() >= 2
    &&& events.first() is Open
    &&& events.last() is Close
    &&& is_content(events.subrange(1, events.len() - 1))
}

/// `events` is one whole top-level record: an element with the root tag.
pub open spec fn is_record(schema: SchemaView, events: Seq<Event>) -> bool {
    is_element(events) && events.first() == Event::Open(schema.root)
}

/// `events` holds nothing that starts a record. Between records such
/// events are noise: stray elements, their closing events, text, errors.
pub open spec fn is_noise(schema: SchemaView, events: Seq<Event>) -> bool {
    forall|i: int| 0 <= i < events.len() ==> events[i] != Event::Open(schema.root)
}

/// The stream `noise[0] records[0] noise[1] ... records[k-1] noise[k]`.
pub open spec fn interleaved(noise: Seq<Seq<Event>>, records: Seq<Seq<Event>>) -> Seq<Event>
    decreases records.len(),
{
    if records.len() == 0 {
        noise.first()
    } else {
        interleaved(noise.drop_last(), records.drop_last()) + records.last() + noise.last()
    }
}

/// Every open element carries the classification of its name, and the
/// outermost one is a record's root.
pub open spec fn stack_is_sound(schema: SchemaView, stack: Seq<Node>) -> bool {
    &&& forall|i: int| 0 <= i < stack.len() ==> (#[trigger] stack[i]).follows_schema(schema)
    &&& stack.len() > 0 ==> stack[0].name == schema.root
}

/// Running the builder over two streams in a row is running it over
/// their concatenation.
pub proof fn lemma_run_concat(
    schema: SchemaView,
    stack: Seq<Node>,
    first: Seq<Event>,
    second: Seq<Event>,
)
    ensures
        stack_after(schema, stack, first + second) == stack_after(
            schema,
            stack_after(schema, stack, first),
            second,
        ),
        records_from(schema, stack, first + second) == records_from(schema, stack, first)
            + records_from(schema, stack_after(schema, stack, first), second),
    decreases second.len(),
{
    if second.len() == 0 {
        assert(first + second =~= first);
        assert(records_from(schema, stack, first) + Seq::<Node>::empty() =~= records_from(
            schema,
            stack,
            first,
        ));
    } else {
        assert((first + second).drop_last() =~= first + second.drop_last());
        assert((first + second).last() == second.last());
        lemma_run_concat(schema, stack, first, second.drop_last());
        let mid = stack_after(schema, stack, first);
        let before = records_from(schema, mid, second.drop_last());
        match record_step(stack_after(schema, mid, second.drop_last()), second.last()) {
            Some(record) => {
                let earlier = records_from(schema, stack, first);
                assert((earlier + before).push(record) =~= earlier + before.push(record));
            },
            None => {},
        }
    }
}

/// Running the builder over a single event is one step.
pub proof fn lemma_run_single(schema: SchemaView, stack: Seq<Node>, event: Event)
    ensures
        stack_after(schema, stack, seq![event]) == stack_step(schema, stack, event),
        records_from(schema, stack, seq![event]) == match record_step(stack, event) {
            Some(record) => seq![record],
            None => Seq::<Node>::empty(),
        },
{
    reveal_with_fuel(stack_after, 2);
    reveal_with_fuel(records_from, 2);
    assert(seq![event].drop_last() =~= Seq::<Event>::empty());
    match record_step(stack, event) {
        Some(record) => {
            assert(Seq::<Node>::empty().push(record) =~= seq![record]);
        },
        None => {},
    }
}

/// Text that arrives in two pieces reads as their concatenation.
pub proof fn lemma_text_pieces_join(
    schema: SchemaView,
    stack: Seq<Node>,
    first: Seq<char>,
    second: Seq<char>,
)
    ensures
        stack_step(schema, stack_step(schema, stack, Event::Text(first)), Event::Text(second))
            == stack_step(schema, stack, Event::Text(first + second)),
{
    if stack.len() > 0 {
        let top = stack.last();
        let once = stack_step(schema, stack, Event::Text(first));
        assert(once.drop_last() =~= stack.drop_last());
        assert(top.text + first + second =~= top.text + (first + second));
    }
}

/// Inside an open element, content completes no record and leaves as many
/// elements open as it found.
pub proof fn lemma_content_stays_inside(schema: SchemaView, stack: Seq<Node>, events: Seq<Event>)
    requires
        stack.len() >= 1,
        never_closes_early(events),
    ensures
        stack_after(schema, stack, events).len() == stack.len() + excess(events),
        records_from(schema, stack, events) == Seq::<Node>::empty(),
    decreases events.len(),
{
    if events.len() > 0 {
        let front = events.drop_last();
        assert forall|k: int| 0 <= k <= front.len() implies excess(#[trigger] front.take(k))
            >= 0 by {
            assert(front.take(k) =~= events.take(k));
        }
        lemma_content_stays_inside(schema, stack, front);
        assert(events.take(events.len() as int) =~= events);
        assert(front.take(front.len() as int) =~= front);
        assert(excess(front) >= 0);
        assert(excess(events) >= 0);
    }
}

/// Between records, noise completes no record and leaves the builder idle.
pub proof fn lemma_noise_is_ignored(schema: SchemaView, events: Seq<Event>)
    requires
        is_noise(schema, events),
    ensures
        open_after(schema, events) == Seq::<Node>::empty(),
        records_of(schema, events) == Seq::<Node>::empty(),
    decreases events.len(),
{
    if events.len() > 0 {
        lemma_noise_is_ignored(schema, events.drop_last());
        assert(events.last() == events[events.len() - 1]);
    }
}

/// From an idle builder, one whole record completes exactly one record
/// and leaves the builder idle again.
pub proof fn lemma_record_completes(schema: SchemaView, events: Seq<Event>)
    requires
        is_record(schema, events),
    ensures
        open_after(schema, events) == Seq::<Node>::empty(),
        records_of(schema, events).len() == 1,
{
    let idle = Seq::<Node>::empty();
    let open = seq![events.first()];
    let content = events.subrange(1, events.len() - 1);
    let close = seq![events.last()];
    assert(events =~= open + content + close);
    lemma_run_single(schema, idle, events.first());
    let opened = stack_after(schema, idle, open);
    assert(opened.len() == 1);
    lemma_content_stays_inside(schema, opened, content);
    lemma_run_concat(schema, idle, open, content);
    lemma_run_concat(schema, idle, open + content, close);
    let inside = stack_after(schema, idle, open + content);
    assert(inside.len() == 1);
    lemma_run_single(schema, inside, events.last());
}

/// The number of completed records is the number of whole records in the
/// stream, whatever noise stands before, between and behind them; each
/// record is built as if it stood alone, and the builder ends idle.
pub proof fn lemma_one_record_per_root_element(
    schema: SchemaView,
    noise: Seq<Seq<Event>>,
    records: Seq<Seq<Event>>,
)
    requires
        noise.len() == records.len() + 1,
        forall|i: int| 0 <= i < noise.len() ==> is_noise(schema, #[trigger] noise[i]),
        forall|i: int| 0 <= i < records.len() ==> is_record(schema, #[trigger] records[i]),
    ensures
        open_after(schema, interleaved(noise, records)) == Seq::<Node>::empty(),
        records_of(schema, interleaved(noise, records)).len() == records.len(),
        forall|i: int|
            0 <= i < records.len() ==> records_of(schema, interleaved(noise, records))[i]
                == records_of(schema, #[trigger] records[i])[0],
    decreases records.len(),
{
    let idle = Seq::<Node>::empty();
    if records.len() == 0 {
        lemma_noise_is_ignored(schema, noise.first());
    } else {
        let front = interleaved(noise.drop_last(), records.drop_last());
        assert forall|i: int| 0 <= i < noise.drop_last().len() implies is_noise(
            schema,
            #[trigger] noise.drop_last()[i],
        ) by {
            assert(noise.drop_last()[i] == noise[i]);
        }
        assert forall|i: int| 0 <= i < records.drop_last().len() implies is_record(
            schema,
            #[trigger] records.drop_last()[i],
        ) by {
            assert(records.drop_last()[i] == records[i]);
        }
        lemma_one_record_per_root_element(schema, noise.drop_last(), records.drop_last());
        lemma_record_completes(schema, records.last());
        lemma_noise_is_ignored(schema, noise.last());
        lemma_run_concat(schema, idle, front, records.last());
        lemma_run_concat(schema, idle, front + records.last(), noise.last());
        let all = records_from(schema, idle, interleaved(noise, records));
        assert(all =~= records_of(schema, front) + records_of(schema, records.last()));
        assert forall|i: int| 0 <= i < records.len() implies all[i] == records_of(
            schema,
            #[trigger] records[i],
        )[0] by {
            if i < records.len() - 1 {
                assert(records.drop_last()[i] == records[i]);
            }
        }
    }
}

/// A step keeps the stack sound, and what it completes is a record: its
/// name is the root tag and its nodes are classified by the schema.
pub proof fn lemma_step_keeps_sound(schema: SchemaView, stack: Seq<Node>, event: Event)
    requires
        stack_is_sound(schema, stack),
    ensures
        stack_is_sound(schema, stack_step(schema, stack, event)),
        record_step(stack, event) matches Some(record) ==> record.name == schema.root
            && record.follows_schema(schema),
{
    let next = stack_step(schema, stack, event);
    match event {
        Event::Open(name) => {
            if stack.len() > 0 || name == schema.root {
                assert forall|i: int| 0 <= i < next.len() implies (
                #[trigger] next[i]).follows_schema(schema) by {
                    if i < stack.len() {
                        assert(next[i] == stack[i]);
                    }
                }
            }
        },
        Event::Text(text) => {
            if stack.len() > 0 {
                let top = stack.last();
                assert(top.follows_schema(schema));
                assert(top.with_text(text).follows_schema(schema));
                assert forall|i: int| 0 <= i < next.len() implies (
                #[trigger] next[i]).follows_schema(schema) by {
                    if i < stack.len() - 1 {
                        assert(next[i] == stack[i]);
                    }
                }
            }
        },
        Event::Close => {
            if stack.len() >= 2 {
                let child = stack.last();
                let parent = stack[stack.len() - 2];
                let joined = parent.with_child(child);
                assert(child.follows_schema(schema));
                assert(parent.follows_schema(schema));
                assert forall|j: int| 0 <= j < joined.children.len() implies (
                #[trigger] joined.children[j]).follows_schema(schema) by {
                    if j < parent.children.len() {
                        assert(joined.children[j] == parent.children[j]);
                    }
                }
                assert(joined.follows_schema(schema));
                assert forall|i: int| 0 <= i < next.len() implies (
                #[trigger] next[i]).follows_schema(schema) by {
                    if i < stack.len() - 2 {
                        assert(next[i] == stack[i]);
                    }
                }
            } else if stack.len() == 1 {
                assert(stack[0].follows_schema(schema));
            }
        },
        _ => {},
    }
}

/// Whatever the events, every record that an idle builder completes has
/// the root tag as its name and follows the schema throughout.
pub proof fn lemma_records_are_sound(schema: SchemaView, events: Seq<Event>)
    ensures
        stack_is_sound(schema, open_after(schema, events)),
        forall|i: int|
            0 <= i < records_of(schema, events).len() ==> {
                let record = #[trigger] records_of(schema, events)[i];
                record.name == schema.root && record.follows_schema(schema)
            },
    decreases events.len(),
{
    if events.len() > 0 {
        lemma_records_are_sound(schema, events.drop_last());
        lemma_step_keeps_sound(schema, open_after(schema, events.drop_last()), events.last());
    }
}

/// No element of `events` opens directly inside a scalar, where the
/// events are taken from `stack` on.
pub open spec fn opens_in_structures_only(
    schema: SchemaView,
    stack: Seq<Node>,
    events: Seq<Event>,
) -> bool {
    forall|k: int|
        0 <= k < events.len() && (#[trigger] events[k]) is Open ==> {
            let open = stack_after(schema, stack, events.take(k));
            open.len() > 0 ==> open.last().classification != Classification::Scalar
        }
}

/// Every scalar in the open elements is a leaf, and only the innermost
/// open element may be a scalar.
pub open spec fn stack_keeps_scalars_leaves(stack: Seq<Node>) -> bool {
    &&& forall|i: int| 0 <= i < stack.len() ==> (#[trigger] stack[i]).scalars_are_leaves()
    &&& forall|i: int|
        0 <= i < stack.len() - 1 ==> (#[trigger] stack[i]).classification
            != Classification::Scalar
}

/// A step keeps the scalars leaves, unless it opens an element inside a
/// scalar; and so what it completes has no scalar with children.
pub proof fn lemma_step_keeps_scalars_leaves(schema: SchemaView, stack: Seq<Node>, event: Event)
    requires
        stack_keeps_scalars_leaves(stack),
        event is Open && stack.len() > 0 ==> stack.last().classification
            != Classification::Scalar,
    ensures
        stack_keeps_scalars_leaves(stack_step(schema, stack, event)),
        record_step(stack, event) matches Some(record) ==> record.scalars_are_leaves(),
{
    let next = stack_step(schema, stack, event);
    match event {
        Event::Open(name) => {
            if stack.len() > 0 || name == schema.root {
                assert forall|i: int| 0 <= i < next.len() implies (
                #[trigger] next[i]).scalars_are_leaves() by {
                    if i < stack.len() {
                        assert(next[i] == stack[i]);
                    }
                }
                assert forall|i: int| 0 <= i < next.len() - 1 implies (
                #[trigger] next[i]).classification != Classification::Scalar by {
                    assert(next[i] == stack[i]);
                    if i == stack.len() - 1 {
                        assert(stack[i] == stack.last());
                    }
                }
            }
        },
        Event::Text(text) => {
            if stack.len() > 0 {
                let top = stack.last();
                assert(top.scalars_are_leaves());
                assert(top.with_text(text).scalars_are_leaves());
                assert forall|i: int| 0 <= i < next.len() implies (
                #[trigger] next[i]).scalars_are_leaves() by {
                    if i < stack.len() - 1 {
                        assert(next[i] == stack[i]);
                    }
                }
                assert forall|i: int| 0 <= i < next.len() - 1 implies (
                #[trigger] next[i]).classification != Classification::Scalar by {
                    assert(next[i] == stack[i]);
                }
            }
        },
        Event::Close => {
            if stack.len() >= 2 {
                let child = stack.last();
                let parent = stack[stack.len() - 2];
                let joined = parent.with_child(child);
                assert(child.scalars_are_leaves());
                assert(parent.scalars_are_leaves());
                assert(parent.classification != Classification::Scalar);
                assert forall|j: int| 0 <= j < joined.children.len() implies (
                #[trigger] joined.children[j]).scalars_are_leaves() by {
                    if j < parent.children.len() {
                        assert(joined.children[j] == parent.children[j]);
                    }
                }
                assert(joined.scalars_are_leaves());
                assert forall|i: int| 0 <= i < next.len() implies (
                #[trigger] next[i]).scalars_are_leaves() by {
                    if i < stack.len() - 2 {
                        assert(next[i] == stack[i]);
                    }
                }
                assert forall|i: int| 0 <= i < next.len() - 1 implies (
                #[trigger] next[i]).classification != Classification::Scalar by {
                    assert(next[i] == stack[i]);
                }
            } else if stack.len() == 1 {
                assert(stack[0].scalars_are_leaves());
            }
        },
        _ => {},
    }
}

/// Where no element opens directly inside a scalar, no scalar of a
/// completed record has children: a scalar's value is its text alone.
pub proof fn lemma_scalars_are_leaves(schema: SchemaView, events: Seq<Event>)
    requires
        opens_in_structures_only(schema, Seq::empty(), events),
    ensures
        stack_keeps_scalars_leaves(open_after(schema, events)),
        forall|i: int|
            0 <= i < records_of(schema, events).len() ==> (#[trigger] records_of(
                schema,
                events,
            )[i]).scalars_are_leaves(),
    decreases events.len(),
{
    if events.len() > 0 {
        let front = events.drop_last();
        assert forall|k: int| 0 <= k < front.len() && (#[trigger] front[k]) is Open implies {
            let open = open_after(schema, front.take(k));
            open.len() > 0 ==> open.last().classification != Classification::Scalar
        } by {
            assert(front[k] == events[k]);
            assert(front.take(k) =~= events.take(k));
        }
        lemma_scalars_are_leaves(schema, front);
        assert(events.take(events.len() - 1) =~= front);
        assert(events[events.len() - 1] == events.last());
        lemma_step_keeps_scalars_leaves(schema, open_after(schema, front), events.last());
        let before = records_of(schema, front);
        let all = records_of(schema, events);
        assert forall|i: int| 0 <= i < all.len() implies (
        #[trigger] all[i]).scalars_are_leaves() by {
            if i < before.len() {
                assert(all[i] == before[i]);
            }
        }
    }
}

} // verus!
