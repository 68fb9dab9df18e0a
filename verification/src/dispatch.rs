//! The sink dispatcher: which sinks get a completed record, and where the
//! file-based sink starts a new output unit.

use crate::diagnostic::{notices_of, Diagnostic, Notice};
use crate::json::{encode, json_text};
use crate::record::Record;
use crate::render::{render_value, render_warnings};
use crate::table::{
    coercion_notices, insert_sqlite, insert_text, lossy_coercions, COLUMN_COUNT,
};
use crate::text::{decimal_text, push_unsigned};
use crate::value::{Value, ValueView};
use vstd::prelude::*;
use vstd::string::*;

verus! {

/// After how many records progress is reported.
pub const PROGRESS_INTERVAL: usize = 1000;

/// A record with this index starts a new output unit.
pub open spec fn opens_unit(index: nat, chunk_size: nat) -> bool {
    index % chunk_size == 0
}

/// The number of the output unit that the record with this index is
/// written to, counting units from 0.
pub open spec fn unit_of(index: nat, chunk_size: nat) -> nat {
    index / chunk_size
}

/// The index of the record that started the output unit that the record
/// with this index is written to. The unit is named by it.
pub open spec fn unit_start(index: nat, chunk_size: nat) -> nat {
    (index - index % chunk_size) as nat
}

/// The name of the output unit that starts with the record `first_index`,
/// below `directory`.
pub open spec fn unit_path_text(directory: Seq<char>, first_index: nat) -> Seq<char> {
    directory + "/"@ + decimal_text(first_index) + ".json"@
}

/// The line that the file-based sink writes for a document.
pub open spec fn document_line_text(value: ValueView) -> Seq<char> {
    json_text(value) + "\n"@
}

/// The statement that the relational sink runs for a document: objects
/// are inserted, any other document is not.
pub open spec fn insert_for(value: ValueView) -> Option<Seq<char>> {
    match value {
        ValueView::Object(fields) => Some(insert_text(fields)),
        _ => None,
    }
}

/// What making the statement for a document reports.
pub open spec fn coercions_for(value: ValueView) -> Seq<Notice> {
    match value {
        ValueView::Object(fields) => coercion_notices(fields, COLUMN_COUNT as nat),
        _ => Seq::empty(),
    }
}

/// The view of a text that may be missing.
pub open spec fn text_of(text: Option<String>) -> Option<Seq<char>> {
    match text {
        Some(text) => Some(text@),
        None => None,
    }
}

/// The name of the output unit that starts with the record `first_index`.
pub fn unit_path(directory: &str, first_index: usize) -> (path: String)
    ensures
        path@ == unit_path_text(directory@, first_index as nat),
{
    let mut path = String::from_str(directory);
    path.append("/");
    push_unsigned(&mut path, first_index as u64);
    path.append(".json");
    path
}

/// The line that the file-based sink writes for a document whose JSON
/// text is `json`: the text and a line break.
pub fn document_line(json: &str) -> (line: String)
    ensures
        line@ == json@ + "\n"@,
{
    let mut line = String::from_str(json);
    line.append("\n");
    line
}

/// What is to be done with one completed record.
#[derive(Debug)]
pub struct Dispatch {
    /// The record's index, counted from 0.
    pub index: usize,
    /// The rendered document itself, for a sink that stores documents as
    /// they are.
    pub value: Value,
    /// The first index of the output unit that the document belongs to,
    /// if the file-based sink is configured.
    pub unit_start: Option<usize>,
    /// Whether the file-based sink starts that unit with this record.
    pub opens_unit: bool,
    /// The line for the file-based sink, if that sink is configured.
    pub document: Option<String>,
    /// The statement that inserts the record, if it rendered to an object.
    pub insert: Option<String>,
    /// Whether the relational sink is configured and runs the statement.
    pub run_insert: bool,
    /// Whether the number of records so far is to be reported.
    pub progress: bool,
    /// What rendering reported.
    pub diagnostics: Vec<Diagnostic>,
}

/// The dispatcher's state: the sinks that are configured and the number
/// of records seen.
#[derive(Debug)]
pub struct Dispatcher {
    chunk_size: usize,
    documents: bool,
    rows: bool,
    count: usize,
}

/// The mathematical value of a dispatcher.
pub ghost struct DispatcherView {
    /// The number of records in one output unit.
    pub chunk_size: nat,
    /// Whether the file-based sink is configured.
    pub documents: bool,
    /// Whether the relational sink is configured.
    pub rows: bool,
    /// The number of records dispatched so far.
    pub count: nat,
}

impl View for Dispatcher {
    type V = DispatcherView;

    closed spec fn view(&self) -> DispatcherView {
        DispatcherView {
            chunk_size: self.chunk_size as nat,
            documents: self.documents,
            rows: self.rows,
            count: self.count as nat,
        }
    }
}

impl Dispatcher {
    /// A file-based sink has a chunk size of at least 1.
    #[verifier::type_invariant]
    spec fn chunks_are_not_empty(self) -> bool {
        self.documents ==> self.chunk_size >= 1
    }

    /// A dispatcher that has seen no record. `documents` and `rows` say
    /// whether the file-based and the relational sink are configured; a
    /// file-based sink needs a chunk size of at least 1.
    pub fn new(chunk_size: usize, documents: bool, rows: bool) -> (dispatcher: Dispatcher)
        requires
            documents ==> chunk_size >= 1,
        ensures
            dispatcher@ == (DispatcherView {
                chunk_size: chunk_size as nat,
                documents,
                rows,
                count: 0,
            }),
    {
        Dispatcher { chunk_size, documents, rows, count: 0 }
    }

    /// The number of records dispatched so far.
    pub fn count(&self) -> (count: usize)
        ensures
            count == self@.count,
    {
        self.count
    }

    /// Renders a completed record once and says what each sink is to do
    /// with it. The record's index is the number of records dispatched
    /// before it; what a sink later makes of its part has no bearing on
    /// the next record.
    pub fn dispatch(&mut self, record: &Record) -> (out: Dispatch)
        requires
            old(self)@.count < usize::MAX,
        ensures
            final(self)@ == (DispatcherView { count: old(self)@.count + 1, ..old(self)@ }),
            out.index == old(self)@.count,
            out.value@ == render_value(record@),
            match out.unit_start {
                Some(start) => old(self)@.documents && start == unit_start(
                    out.index as nat,
                    old(self)@.chunk_size,
                ),
                None => !old(self)@.documents,
            },
            out.opens_unit == (old(self)@.documents && opens_unit(
                out.index as nat,
                old(self)@.chunk_size,
            )),
            text_of(out.document) == if old(self)@.documents {
                Some(document_line_text(render_value(record@)))
            } else {
                None
            },
            text_of(out.insert) == insert_for(render_value(record@)),
            out.run_insert == (old(self)@.rows && render_value(record@) is Object),
            out.progress == ((out.index + 1) % (PROGRESS_INTERVAL as int) == 0),
            notices_of(out.diagnostics@) == render_warnings(record@) + coercions_for(
                render_value(record@),
            ),
    {
        proof {
            use_type_invariant(&*self);
        }
        let index = self.count;
        self.count = index + 1;
        let rendering = record.to_json();
        let value = rendering.value;
        let mut diagnostics = rendering.warnings;
        let mut unit_start: Option<usize> = None;
        let mut opens_unit = false;
        let mut document: Option<String> = None;
        if self.documents {
            let offset = index % self.chunk_size;
            assert(offset <= index) by (nonlinear_arith)
                requires
                    self.chunk_size >= 1,
                    offset == index % self.chunk_size,
            ;
            unit_start = Some(index - offset);
            opens_unit = offset == 0;
            document = Some(document_line(encode(&value).as_str()));
        }
        let mut insert: Option<String> = None;
        let ghost reported = notices_of(diagnostics@);
        match &value {
            Value::Object(fields) => {
                insert = Some(insert_sqlite(fields));
                let mut lossy = lossy_coercions(fields);
                let ghost coerced = notices_of(lossy@);
                diagnostics.append(&mut lossy);
                assert(notices_of(diagnostics@) =~= reported + coerced);
            },
            _ => {
                assert(reported + Seq::<Notice>::empty() =~= reported);
            },
        }
        let run_insert = self.rows && insert.is_some();
        let progress = (index + 1) % PROGRESS_INTERVAL == 0;
        Dispatch {
            index,
            value,
            unit_start,
            opens_unit,
            document,
            insert,
            run_insert,
            progress,
            diagnostics,
        }
    }
}

/// Rendering depends on the tree alone: two records with the same value
/// have the same document, the same line in the file-based sink, the same
/// statement in the relational sink, and the same diagnostics. Rendering
/// a tree again changes nothing.
pub proof fn lemma_rendering_is_repeatable(first: Record, second: Record)
    requires
        first@ == second@,
    ensures
        render_value(first@) == render_value(second@),
        document_line_text(render_value(first@)) == document_line_text(render_value(second@)),
        insert_for(render_value(first@)) == insert_for(render_value(second@)),
        render_warnings(first@) + coercions_for(render_value(first@)) == render_warnings(second@)
            + coercions_for(render_value(second@)),
{
}

/// The records of one output unit are those from the unit's first index
/// up to the next unit's: with chunk size `n`, the records `0..n` are in
/// unit 0, the records `n..2n` in unit 1, and so on.
pub proof fn lemma_unit_bounds(index: nat, chunk_size: nat, unit: nat)
    requires
        chunk_size >= 1,
    ensures
        unit_of(index, chunk_size) == unit <==> unit * chunk_size <= index < (unit + 1)
            * chunk_size,
        unit_start(index, chunk_size) == unit_of(index, chunk_size) * chunk_size,
{
    let q = index / chunk_size;
    let r = index % chunk_size;
    assert(index == q * chunk_size + r && 0 <= r < chunk_size) by (nonlinear_arith)
        requires
            chunk_size >= 1,
            q == index / chunk_size,
            r == index % chunk_size,
    ;
    if unit * chunk_size <= index < (unit + 1) * chunk_size {
        assert(q == unit) by (nonlinear_arith)
            requires
                unit * chunk_size <= index < (unit + 1) * chunk_size,
                index == q * chunk_size + r,
                0 <= r < chunk_size,
        ;
    }
    if q == unit {
        assert(unit * chunk_size <= index < (unit + 1) * chunk_size) by (nonlinear_arith)
            requires
                q == unit,
                index == q * chunk_size + r,
                0 <= r < chunk_size,
        ;
    }
}

/// The unit that a record is written to is the last one that was started:
/// the record at the unit's first index starts a unit, and no record
/// after it up to this one does.
pub proof fn lemma_unit_is_last_started(index: nat, chunk_size: nat)
    requires
        chunk_size >= 1,
    ensures
        unit_start(index, chunk_size) <= index,
        opens_unit(unit_start(index, chunk_size), chunk_size),
        forall|other: nat|
            unit_start(index, chunk_size) < other <= index ==> !opens_unit(other, chunk_size),
{
    let q = index / chunk_size;
    let r = index % chunk_size;
    let start = unit_start(index, chunk_size);
    assert(index == q * chunk_size + r && 0 <= r < chunk_size) by (nonlinear_arith)
        requires
            chunk_size >= 1,
            q == index / chunk_size,
            r == index % chunk_size,
    ;
    assert(start % chunk_size == 0) by (nonlinear_arith)
        requires
            chunk_size >= 1,
            start == q * chunk_size,
    ;
    assert forall|other: nat| start < other <= index implies !opens_unit(other, chunk_size) by {
        assert(other % chunk_size != 0) by (nonlinear_arith)
            requires
                chunk_size >= 1,
                start == q * chunk_size,
                start < other,
                other <= q * chunk_size + r,
                0 <= r < chunk_size,
        ;
    }
}

/// With a chunk size of 1 every record starts a unit of its own.
pub proof fn lemma_unit_per_record(index: nat)
    ensures
        opens_unit(index, 1),
        unit_of(index, 1) == index,
        unit_start(index, 1) == index,
{
}

} // verus!
