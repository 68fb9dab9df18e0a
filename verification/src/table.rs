//! The relational target: the table's columns and the statements that
//! create it and fill it.

use crate::diagnostic::{notices_of, Diagnostic, Notice};
use crate::json::{encode, json_text};
use crate::text::{
    decimal_text, joined, padded, push_padded, push_signed, push_unsigned, signed_text,
};
use crate::value::{Object, Value, ValueView};
use vstd::prelude::*;
use vstd::string::*;

verus! {

/// What a column holds.
#[derive(Clone, Copy, Debug, PartialEq, Eq, Structural)]
pub enum ColType {
    /// Text: a leaf's text as it is, any other value as JSON.
    String,
    /// The value as JSON.
    Json,
    /// A number; any other value is written as 0.
    Int,
}

/// The number of columns.
pub const COLUMN_COUNT: usize = 18;

/// The width to which a column's name is filled up in the table's
/// definition.
pub const NAME_WIDTH: usize = 36;

/// The table's columns, in order: name and kind.
pub const COLUMNS: [(&'static str, ColType); 18] = [
    ("KoeretoejIdent", ColType::String),
    ("KoeretoejArtNummer", ColType::Int),
    ("KoeretoejArtNavn", ColType::String),
    ("KoeretoejAnvendelseStruktur", ColType::Json),
    ("RegistreringNummerNummer", ColType::String),
    ("RegistreringNummerUdloebDato", ColType::String),
    ("KoeretoejOplysningGrundStruktur", ColType::String),
    ("EjerBrugerSamling", ColType::Json),
    ("KoeretoejRegistreringStatus", ColType::String),
    ("KoeretoejRegistreringStatusDato", ColType::String),
    ("TilladelseSamling", ColType::Json),
    ("SynResultatStruktur", ColType::Json),
    ("AdressePostNummer", ColType::String),
    ("LeasingGyldigFra", ColType::String),
    ("LeasingGyldigTil", ColType::String),
    ("RegistreringNummerRettighedGyldigFra", ColType::String),
    ("RegistreringNummerRettighedGyldigTil", ColType::String),
    ("KoeretoejAnvendelseSamlingStruktur", ColType::Json),
];

/// The SQL type of a column of this kind.
pub open spec fn sql_type(kind: ColType) -> Seq<char> {
    match kind {
        ColType::Int => "INTEGER"@,
        _ => "TEXT"@,
    }
}

/// The line that defines column `i`.
pub open spec fn column_definition(i: int) -> Seq<char> {
    "  "@ + padded(COLUMNS[i].0@, NAME_WIDTH as nat) + " "@ + sql_type(COLUMNS[i].1)
}

/// The definitions of the first `count` columns.
pub open spec fn column_definitions(count: nat) -> Seq<Seq<char>> {
    Seq::new(count, |i: int| column_definition(i))
}

/// The statement that creates the table.
pub open spec fn create_table_text() -> Seq<char> {
    "CREATE TABLE IF NOT EXISTS stat(\n"@ + joined(
        column_definitions(COLUMN_COUNT as nat),
        ",\n"@,
    ) + ");\n"@
}

/// The names of the first `count` columns.
pub open spec fn column_names(count: nat) -> Seq<Seq<char>> {
    Seq::new(count, |i: int| COLUMNS[i].0@)
}

/// `text` as a cell between single quotes. The text is not escaped.
pub open spec fn quoted_text(text: Seq<char>) -> Seq<char> {
    "  '"@ + text + "'"@
}

/// A value is a number.
pub open spec fn is_number(value: ValueView) -> bool {
    value is Integer || value is Unsigned
}

/// The cell of a column of kind `kind` for a record in which the column's
/// field is `value`: `NULL` for a missing field; for a text column a
/// leaf's text between quotes, and any other value as JSON between
/// quotes; for a JSON column the value as JSON between quotes; for an
/// integer column the number, and 0 for anything else.
pub open spec fn cell_text(kind: ColType, value: Option<ValueView>) -> Seq<char> {
    match value {
        None => "  NULL"@,
        Some(value) => match kind {
            ColType::String => match value {
                ValueView::Text(text) => quoted_text(text),
                _ => quoted_text(json_text(value)),
            },
            ColType::Json => quoted_text(json_text(value)),
            ColType::Int => match value {
                ValueView::Integer(number) => "  "@ + signed_text(number as int),
                ValueView::Unsigned(number) => "  "@ + decimal_text(number as nat),
                _ => "  0"@,
            },
        },
    }
}

/// The field called `name`, if the record has one.
pub open spec fn field(fields: Map<Seq<char>, ValueView>, name: Seq<char>) -> Option<ValueView> {
    if fields.contains_key(name) {
        Some(fields[name])
    } else {
        None
    }
}

/// The cells of the first `count` columns for a record with these fields.
pub open spec fn cells(fields: Map<Seq<char>, ValueView>, count: nat) -> Seq<Seq<char>> {
    Seq::new(count, |i: int| cell_text(COLUMNS[i].1, field(fields, COLUMNS[i].0@)))
}

/// The statement that inserts a record with these fields.
pub open spec fn insert_text(fields: Map<Seq<char>, ValueView>) -> Seq<char> {
    "INSERT INTO stat (\n"@ + joined(column_names(COLUMN_COUNT as nat), ", "@) + ")\nVALUES ("@
        + joined(cells(fields, COLUMN_COUNT as nat), ",\n"@) + ");\n"@
}

/// Column `i` is an integer column whose field is there and is no number.
pub open spec fn is_lossy(fields: Map<Seq<char>, ValueView>, i: int) -> bool {
    &&& COLUMNS[i].1 == ColType::Int
    &&& fields.contains_key(COLUMNS[i].0@)
    &&& !is_number(fields[COLUMNS[i].0@])
}

/// One notice for each of the first `count` columns that is written as 0
/// in place of a value that is no number, in the order of the columns.
pub open spec fn coercion_notices(fields: Map<Seq<char>, ValueView>, count: nat) -> Seq<Notice>
    decreases count,
{
    if count == 0 {
        Seq::empty()
    } else {
        let before = coercion_notices(fields, (count - 1) as nat);
        if is_lossy(fields, count - 1) {
            before.push(Notice::LossyCoercion { column: COLUMNS[count - 1].0@ })
        } else {
            before
        }
    }
}

/// A notice for a column is among the notices exactly when the column is
/// an integer column whose field is there and is no number.
pub proof fn lemma_coercions_are_the_lossy_columns(
    fields: Map<Seq<char>, ValueView>,
    count: nat,
    column: Seq<char>,
)
    requires
        count <= COLUMN_COUNT,
    ensures
        coercion_notices(fields, count).contains(Notice::LossyCoercion { column }) <==> exists|
            i: int,
        |
            0 <= i < count && #[trigger] is_lossy(fields, i) && COLUMNS[i].0@ == column,
    decreases count,
{
    let notice = Notice::LossyCoercion { column };
    if count > 0 {
        let before = coercion_notices(fields, (count - 1) as nat);
        let all = coercion_notices(fields, count);
        lemma_coercions_are_the_lossy_columns(fields, (count - 1) as nat, column);
        if is_lossy(fields, count - 1) {
            let last = Notice::LossyCoercion { column: COLUMNS[count - 1].0@ };
            assert(all == before.push(last));
            assert(all[all.len() - 1] == last);
            if before.contains(notice) {
                let k = choose|k: int| 0 <= k < before.len() && before[k] == notice;
                assert(all[k] == notice);
            }
            if all.contains(notice) && !before.contains(notice) {
                let k = choose|k: int| 0 <= k < all.len() && all[k] == notice;
                if k < before.len() {
                    assert(before[k] == notice);
                }
                assert(is_lossy(fields, count - 1) && COLUMNS[count - 1].0@ == column);
            }
        }
    }
}

/// A missing field is written as `NULL`. An integer column whose field
/// is no number is written as 0, and this is reported.
pub proof fn lemma_null_and_zero_cells(fields: Map<Seq<char>, ValueView>, i: int)
    requires
        0 <= i < COLUMN_COUNT,
    ensures
        !fields.contains_key(COLUMNS[i].0@) ==> cells(fields, COLUMN_COUNT as nat)[i] == "  NULL"@,
        is_lossy(fields, i) ==> cells(fields, COLUMN_COUNT as nat)[i] == "  0"@
            && coercion_notices(fields, COLUMN_COUNT as nat).contains(
            Notice::LossyCoercion { column: COLUMNS[i].0@ },
        ),
{
    if is_lossy(fields, i) {
        lemma_coercions_are_the_lossy_columns(fields, COLUMN_COUNT as nat, COLUMNS[i].0@);
    }
}

/// Adding a part to a joined text: the separator goes before it unless
/// it is the first.
proof fn lemma_joined_step(parts: Seq<Seq<char>>, separator: Seq<char>, count: int)
    requires
        0 <= count < parts.len(),
    ensures
        joined(parts.take(count + 1), separator) == if count == 0 {
            parts[0]
        } else {
            joined(parts.take(count), separator) + separator + parts[count]
        },
{
    assert(parts.take(count + 1).drop_last() =~= parts.take(count));
    assert(parts.take(count + 1).last() == parts[count]);
}

/// The SQL type of a column of this kind.
fn sql_type_name(kind: ColType) -> (name: &'static str)
    ensures
        name@ == sql_type(kind),
{
    match kind {
        ColType::Int => "INTEGER",
        _ => "TEXT",
    }
}

/// The statement that creates the table: one line for each column, with
/// the column's name filled up to a fixed width.
pub fn create_table_sqlite() -> (sql: String)
    ensures
        sql@ == create_table_text(),
{
    let mut sql = String::new();
    sql.append("CREATE TABLE IF NOT EXISTS stat(\n");
    let ghost head = sql@;
    let ghost lines = column_definitions(COLUMN_COUNT as nat);
    let mut i: usize = 0;
    assert(head + joined(lines.take(0), ",\n"@) =~= head);
    while i < COLUMN_COUNT
        invariant
            i <= COLUMN_COUNT,
            lines == column_definitions(COLUMN_COUNT as nat),
            sql@ == head + joined(lines.take(i as int), ",\n"@),
        decreases COLUMN_COUNT - i,
    {
        let ghost before = sql@;
        if i > 0 {
            sql.append(",\n");
        }
        let ghost started = sql@;
        let (name, kind) = COLUMNS[i];
        sql.append("  ");
        push_padded(&mut sql, name, NAME_WIDTH);
        sql.append(" ");
        sql.append(sql_type_name(kind));
        proof {
            assert(sql@ =~= started + lines[i as int]);
            lemma_joined_step(lines, ",\n"@, i as int);
            if i > 0 {
                assert(sql@ =~= head + (joined(lines.take(i as int), ",\n"@) + ",\n"@
                    + lines[i as int]));
            } else {
                assert(sql@ =~= head + lines[0]);
            }
        }
        i += 1;
    }
    sql.append(");\n");
    assert(lines.take(COLUMN_COUNT as int) =~= lines);
    sql
}

/// The view of a value that may be missing.
pub open spec fn view_of(value: Option<&Value>) -> Option<ValueView> {
    match value {
        Some(value) => Some(value@),
        None => None,
    }
}

/// `text` as a cell between single quotes. The text is not escaped.
pub fn quoted(text: &str) -> (cell: String)
    ensures
        cell@ == quoted_text(text@),
{
    let mut cell = String::from_str("  '");
    cell.append(text);
    cell.append("'");
    cell
}

/// The cell of a column of kind `kind` whose field is `value`.
pub fn cell(kind: ColType, value: Option<&Value>) -> (text: String)
    ensures
        text@ == cell_text(kind, view_of(value)),
{
    match value {
        None => String::from_str("  NULL"),
        Some(value) => match kind {
            ColType::String => match value {
                Value::Text(text) => quoted(text.as_str()),
                _ => quoted(encode(value).as_str()),
            },
            ColType::Json => quoted(encode(value).as_str()),
            ColType::Int => match value {
                Value::Integer(number) => {
                    let mut text = String::from_str("  ");
                    push_signed(&mut text, *number);
                    text
                },
                Value::Unsigned(number) => {
                    let mut text = String::from_str("  ");
                    push_unsigned(&mut text, *number);
                    text
                },
                _ => String::from_str("  0"),
            },
        },
    }
}

/// The statement that inserts a record into the table: the columns'
/// names, then one cell for each column.
pub fn insert_sqlite(r: &Object) -> (sql: String)
    ensures
        sql@ == insert_text(r@),
{
    let mut sql = String::new();
    sql.append("INSERT INTO stat (\n");
    let ghost head = sql@;
    let ghost names = column_names(COLUMN_COUNT as nat);
    let mut i: usize = 0;
    assert(head + joined(names.take(0), ", "@) =~= head);
    while i < COLUMN_COUNT
        invariant
            i <= COLUMN_COUNT,
            names == column_names(COLUMN_COUNT as nat),
            sql@ == head + joined(names.take(i as int), ", "@),
        decreases COLUMN_COUNT - i,
    {
        if i > 0 {
            sql.append(", ");
        }
        sql.append(COLUMNS[i].0);
        proof {
            lemma_joined_step(names, ", "@, i as int);
            if i > 0 {
                assert(sql@ =~= head + (joined(names.take(i as int), ", "@) + ", "@
                    + names[i as int]));
            } else {
                assert(sql@ =~= head + names[0]);
            }
        }
        i += 1;
    }
    assert(names.take(COLUMN_COUNT as int) =~= names);
    sql.append(")\nVALUES (");
    let ghost middle = sql@;
    let ghost row = cells(r@, COLUMN_COUNT as nat);
    let mut i: usize = 0;
    assert(middle + joined(row.take(0), ",\n"@) =~= middle);
    while i < COLUMN_COUNT
        invariant
            i <= COLUMN_COUNT,
            row == cells(r@, COLUMN_COUNT as nat),
            sql@ == middle + joined(row.take(i as int), ",\n"@),
        decreases COLUMN_COUNT - i,
    {
        if i > 0 {
            sql.append(",\n");
        }
        let (name, kind) = COLUMNS[i];
        let text = cell(kind, r.get(name));
        sql.append(text.as_str());
        proof {
            lemma_joined_step(row, ",\n"@, i as int);
            if i > 0 {
                assert(sql@ =~= middle + (joined(row.take(i as int), ",\n"@) + ",\n"@
                    + row[i as int]));
            } else {
                assert(sql@ =~= middle + row[0]);
            }
        }
        i += 1;
    }
    assert(row.take(COLUMN_COUNT as int) =~= row);
    sql.append(");\n");
    sql
}

/// The integer columns of a record that are written as 0 in place of a
/// value that is no number, in the order of the columns.
pub fn lossy_coercions(r: &Object) -> (found: Vec<Diagnostic>)
    ensures
        notices_of(found@) == coercion_notices(r@, COLUMN_COUNT as nat),
{
    let mut found: Vec<Diagnostic> = Vec::new();
    let mut i: usize = 0;
    assert(notices_of(found@) =~= Seq::empty());
    while i < COLUMN_COUNT
        invariant
            i <= COLUMN_COUNT,
            notices_of(found@) == coercion_notices(r@, i as nat),
        decreases COLUMN_COUNT - i,
    {
        let ghost before = notices_of(found@);
        let (name, kind) = COLUMNS[i];
        let lossy = match kind {
            ColType::Int => match r.get(name) {
                Some(Value::Integer(_)) => false,
                Some(Value::Unsigned(_)) => false,
                Some(_) => true,
                None => false,
            },
            _ => false,
        };
        assert(lossy == is_lossy(r@, i as int));
        if lossy {
            let notice = Diagnostic::LossyCoercion { column: String::from_str(name) };
            found.push(notice);
            assert(notices_of(found@) =~= before.push(notice@));
        }
        i += 1;
    }
    found
}

} // verus!
