//! Rows as text: JSON, JSON lines, comma-separated values and tables.

use crate::error::CliError;
use crate::json::{self, Json, JsonView};
use crate::json_path::{self, get_path, value_to_cell};
use crate::json_text::{self, write_json};
use crate::pattern::{self, contains, join, replace};
use crate::text::{self, copy_texts, same};
use vstd::prelude::*;
use vstd::string::StringExecFns;

verus! {

broadcast use crate::json::lemma_view;

/// Whether a cell of comma-separated values must stand in quotes.
pub open spec fn needs_quotes(s: Seq<char>) -> bool {
    s.contains(',') || s.contains('"') || s.contains('\n')
}

/// A cell of comma-separated values: in quotes where it must be, with each quote in it doubled.
pub open spec fn escaped(s: Seq<char>) -> Seq<char> {
    if needs_quotes(s) {
        "\""@ + pattern::replaced(s, "\""@, "\"\""@) + "\""@
    } else {
        s
    }
}

/// What a cell of comma-separated values stands for: the text between its quotes, with each doubled
/// quote taken once, or the cell itself.
pub open spec fn unescaped(cell: Seq<char>) -> Seq<char> {
    if cell.len() >= 2 && cell[0] == '"' {
        pattern::replaced(cell.subrange(1, cell.len() - 1), "\"\""@, "\""@)
    } else {
        cell
    }
}

/// Writes a cell of comma-separated values.
pub fn csv_escape(value: String) -> (r: String)
    ensures
        r@ == escaped(value@),
{
    proof {
        reveal_strlit(",");
        reveal_strlit("\"");
        reveal_strlit("\n");
        pattern::lemma_occurs_char(value@, ","@);
        pattern::lemma_occurs_char(value@, "\""@);
        pattern::lemma_occurs_char(value@, "\n"@);
    }
    if contains(value.as_str(), ",") || contains(value.as_str(), "\"") || contains(
        value.as_str(),
        "\n",
    ) {
        let mut out = "\"".to_string();
        out.append(replace(value.as_str(), "\"", "\"\"").as_str());
        out.append("\"");
        out
    } else {
        value
    }
}

/// A cell of comma-separated values stands for the text that it was written for.
pub proof fn law_cells_read_back(s: Seq<char>)
    ensures
        unescaped(escaped(s)) == s,
{
    reveal_strlit("\"");
    reveal_strlit("\"\"");
    if needs_quotes(s) {
        let inner = pattern::replaced(s, "\""@, "\"\""@);
        let cell = escaped(s);
        assert(cell.subrange(1, cell.len() - 1) =~= inner);
        let parts = pattern::pieces(s, "\""@);
        pattern::lemma_split_then_join(s, "\""@);
        pattern::lemma_join_then_split(parts, "\"\""@);
    } else if s.len() > 0 && s[0] == '"' {
        assert(s.contains('"'));
    }
}

/// A cell of comma-separated values that does not begin with a quote holds no comma, no quote and no
/// line break.
pub proof fn law_bare_cells_are_plain(s: Seq<char>)
    requires
        escaped(s).len() == 0 || escaped(s)[0] != '"',
    ensures
        !needs_quotes(escaped(s)),
{
    reveal_strlit("\"");
    if needs_quotes(s) {
        assert(escaped(s)[0] == '"');
    }
}

/// The columns of the output: the selected fields, or the names in the first row.
pub open spec fn columns(rows: Seq<JsonView>, select: Seq<Seq<char>>) -> Seq<Seq<char>> {
    if select.len() > 0 {
        select
    } else if rows.len() == 0 {
        seq![]
    } else {
        match rows[0] {
            JsonView::Object(members) => json::names_in_order(members),
            _ => seq![],
        }
    }
}

/// Finds the columns of the output.
pub fn output_fields(rows: &Vec<Json>, select: &Vec<String>) -> (r: Vec<String>)
    ensures
        text::texts(r@) == columns(json::trees(rows@), text::texts(select@)),
{
    proof {
        json::lemma_trees(rows@);
    }
    if select.len() > 0 {
        return copy_texts(select);
    }
    let mut none: Vec<String> = Vec::new();
    proof {
        assert(text::texts(none@) =~= seq![]);
    }
    if rows.len() == 0 {
        return none;
    }
    let ghost first = json::trees(rows@)[0];
    match &rows[0] {
        Json::Object(members) => members.names(),
        _ => none,
    }
}

/// The cells of a row, one for each column.
pub open spec fn cells(row: JsonView, fields: Seq<Seq<char>>, quoting: bool) -> Seq<Seq<char>> {
    Seq::new(
        fields.len(),
        |i: int|
            {
                let cell = json_path::cell_text(json_path::path_value(row, fields[i]));
                if quoting {
                    escaped(cell)
                } else {
                    cell
                }
            },
    )
}

/// The lines of rows in columns: the names of the columns, then the cells of each row.
pub open spec fn column_lines(
    rows: Seq<JsonView>,
    fields: Seq<Seq<char>>,
    sep: Seq<char>,
    quoting: bool,
) -> Seq<Seq<char>> {
    seq![pattern::joined(fields, sep)] + Seq::new(
        rows.len(),
        |i: int| pattern::joined(cells(rows[i], fields, quoting), sep),
    )
}

/// Writes the cells of a row.
fn row_cells(row: &Json, fields: &Vec<String>, quoting: bool) -> (r: Vec<String>)
    ensures
        text::texts(r@) == cells(row@, text::texts(fields@), quoting),
{
    let mut out: Vec<String> = Vec::new();
    let mut i: usize = 0;
    let ghost want = cells(row@, text::texts(fields@), quoting);
    while i < fields.len()
        invariant
            i <= fields@.len(),
            want == cells(row@, text::texts(fields@), quoting),
            out@.len() == i,
            forall|j: int| 0 <= j < i ==> (#[trigger] out@[j])@ == want[j],
        decreases fields@.len() - i,
    {
        let cell = value_to_cell(get_path(row, fields[i].as_str()));
        let cell = if quoting {
            csv_escape(cell)
        } else {
            cell
        };
        out.push(cell);
        i = i + 1;
    }
    proof {
        assert(text::texts(out@) =~= want);
    }
    out
}

/// Writes rows in columns.
fn write_columns(rows: &Vec<Json>, select: &Vec<String>, sep: &str, quoting: bool) -> (r: Vec<String>)
    ensures
        text::texts(r@) == column_lines(
            json::trees(rows@),
            columns(json::trees(rows@), text::texts(select@)),
            sep@,
            quoting,
        ),
{
    let fields = output_fields(rows, select);
    let ghost all = json::trees(rows@);
    let ghost want = column_lines(all, text::texts(fields@), sep@, quoting);
    let mut out: Vec<String> = Vec::new();
    out.push(join(&fields, sep));
    proof {
        json::lemma_trees(rows@);
    }
    let mut i: usize = 0;
    while i < rows.len()
        invariant
            i <= rows@.len(),
            all == json::trees(rows@),
            all.len() == rows@.len(),
            forall|j: int| 0 <= j < rows@.len() ==> #[trigger] all[j] == rows@[j]@,
            want == column_lines(all, text::texts(fields@), sep@, quoting),
            out@.len() == i + 1,
            forall|j: int| 0 <= j <= i ==> (#[trigger] out@[j])@ == want[j],
        decreases rows@.len() - i,
    {
        let row = &rows[i];
        let ghost known = all[i as int];
        let line = join(&row_cells(row, &fields, quoting), sep);
        proof {
            assert(want[i + 1] == line@);
        }
        out.push(line);
        i = i + 1;
    }
    proof {
        assert(text::texts(out@) =~= want);
    }
    out
}

/// Writes rows as comma-separated values.
pub fn write_csv(rows: &Vec<Json>, select: &Vec<String>) -> (r: Vec<String>)
    ensures
        text::texts(r@) == column_lines(
            json::trees(rows@),
            columns(json::trees(rows@), text::texts(select@)),
            ","@,
            true,
        ),
{
    write_columns(rows, select, ",", true)
}

/// Writes rows as a table with tabs between its columns.
pub fn write_table(rows: &Vec<Json>, select: &Vec<String>) -> (r: Vec<String>)
    ensures
        text::texts(r@) == column_lines(
            json::trees(rows@),
            columns(json::trees(rows@), text::texts(select@)),
            "\t"@,
            false,
        ),
{
    write_columns(rows, select, "\t", false)
}

/// The lines of rows, one JSON value each, or the message of the first fault.
pub open spec fn json_lines(rows: Seq<JsonView>) -> Result<Seq<Seq<char>>, Seq<char>>
    decreases rows.len(),
{
    if rows.len() == 0 {
        Ok(seq![])
    } else {
        match json_lines(rows.drop_last()) {
            Err(e) => Err(e),
            Ok(lines) => match json_text::json_text(rows.last()) {
                Ok(line) => Ok(lines.push(line)),
                Err(e) => Err(e),
            },
        }
    }
}

/// A fault in the first rows is the fault of all of them.
proof fn lemma_first_fault(rows: Seq<JsonView>, n: int)
    requires
        0 <= n <= rows.len(),
        json_lines(rows.take(n)) is Err,
    ensures
        json_lines(rows) == json_lines(rows.take(n)),
    decreases rows.len(),
{
    if n < rows.len() {
        assert(rows.drop_last().take(n) =~= rows.take(n));
        lemma_first_fault(rows.drop_last(), n);
    } else {
        assert(rows.take(n) =~= rows);
    }
}

/// Writes rows, one JSON value on each line.
pub fn write_json_lines(rows: &Vec<Json>) -> (r: Result<Vec<String>, CliError>)
    ensures
        match r {
            Ok(lines) => json_lines(json::trees(rows@)) == Ok::<Seq<Seq<char>>, Seq<char>>(
                text::texts(lines@),
            ),
            Err(e) => json_lines(json::trees(rows@)) == Err::<Seq<Seq<char>>, Seq<char>>(e@),
        },
{
    let mut out: Vec<String> = Vec::new();
    let ghost all = json::trees(rows@);
    proof {
        json::lemma_trees(rows@);
        assert(all.take(0) =~= seq![]);
        assert(text::texts(out@) =~= seq![]);
    }
    let mut i: usize = 0;
    while i < rows.len()
        invariant
            i <= rows@.len(),
            all == json::trees(rows@),
            all.len() == rows@.len(),
            forall|j: int| 0 <= j < rows@.len() ==> #[trigger] all[j] == rows@[j]@,
            json_lines(all.take(i as int)) == Ok::<Seq<Seq<char>>, Seq<char>>(text::texts(out@)),
        decreases rows@.len() - i,
    {
        let row = &rows[i];
        proof {
            assert(all[i as int] == row@);
            assert(all.take(i + 1).drop_last() =~= all.take(i as int));
            assert(all.take(i + 1).last() == row@);
        }
        match write_json(row) {
            Ok(line) => {
                proof {
                    text::lemma_texts_push(out@, line);
                }
                out.push(line);
            },
            Err(e) => {
                proof {
                    lemma_first_fault(all, i + 1);
                }
                return Err(CliError::of(e));
            },
        }
        i = i + 1;
    }
    proof {
        assert(all.take(i as int) =~= all);
    }
    Ok(out)
}

/// The lines of rows in a format, or the message of the fault.
pub open spec fn row_lines(rows: Seq<JsonView>, select: Seq<Seq<char>>, format: Seq<char>) -> Result<
    Seq<Seq<char>>,
    Seq<char>,
> {
    if format == "json"@ {
        match json_text::json_text(JsonView::Array(rows)) {
            Ok(line) => Ok(seq![line]),
            Err(e) => Err(e),
        }
    } else if format == "jsonl"@ {
        json_lines(rows)
    } else if format == "csv"@ {
        Ok(column_lines(rows, columns(rows, select), ","@, true))
    } else if format == "table"@ {
        Ok(column_lines(rows, columns(rows, select), "\t"@, false))
    } else {
        Err("unsupported format "@ + format)
    }
}

/// Writes rows in a format, line by line.
pub fn write_rows(rows: Vec<Json>, select: &Vec<String>, format: &str) -> (r: Result<
    Vec<String>,
    CliError,
>)
    ensures
        match r {
            Ok(lines) => row_lines(json::trees(rows@), text::texts(select@), format@) == Ok::<
                Seq<Seq<char>>,
                Seq<char>,
            >(text::texts(lines@)),
            Err(e) => row_lines(json::trees(rows@), text::texts(select@), format@) == Err::<
                Seq<Seq<char>>,
                Seq<char>,
            >(e@),
        },
{
    if same(format, "json") {
        match write_json(&Json::Array(rows)) {
            Ok(line) => {
                let mut lines: Vec<String> = Vec::new();
                proof {
                    text::lemma_texts_push(lines@, line);
                    assert(text::texts(lines@) =~= seq![]);
                    assert(seq![line@] =~= Seq::<Seq<char>>::empty().push(line@));
                }
                lines.push(line);
                Ok(lines)
            },
            Err(e) => Err(CliError::of(e)),
        }
    } else if same(format, "jsonl") {
        write_json_lines(&rows)
    } else if same(format, "csv") {
        Ok(write_csv(&rows, select))
    } else if same(format, "table") {
        Ok(write_table(&rows, select))
    } else {
        let mut message = "unsupported format ".to_string();
        message.append(format);
        Err(CliError::of(message))
    }
}

/// The columns of rows without a selection: each member of the first row once, in dictionary order.
pub proof fn law_columns_are_the_members(rows: Seq<JsonView>, names: Seq<Seq<char>>)
    requires
        rows.len() > 0,
        rows[0] matches JsonView::Object(members) && (forall|k: Seq<char>|
            members.contains_key(k) == #[trigger] names.contains(k)),
        forall|i: int, j: int|
            0 <= i < j < names.len() ==> text::text_lt(#[trigger] names[i], #[trigger] names[j]),
    ensures
        columns(rows, seq![]) == names,
{
    if let JsonView::Object(members) = rows[0] {
        assert(json::sorted_names(names, members));
        json::lemma_names_in_order(names, members);
    }
}

/// Selected fields are the columns, in their order; rows that are no objects have none.
pub proof fn law_selected_fields_are_the_columns(rows: Seq<JsonView>, select: Seq<Seq<char>>)
    ensures
        select.len() > 0 ==> columns(rows, select) == select,
        select.len() == 0 && (rows.len() == 0 || !(rows[0] is Object)) ==> columns(rows, select).len()
            == 0,
{
}

/// A table can be read back: it has a line of names and one line for each row, and each line, taken apart
/// at its tabs, gives the cells of its row in the order of the columns, where no cell holds a tab.
pub proof fn law_tables_read_back(rows: Seq<JsonView>, select: Seq<Seq<char>>, i: int)
    requires
        select.len() > 0,
        0 <= i < rows.len(),
        forall|k: int|
            0 <= k < select.len() ==> !json_path::cell_text(
                json_path::path_value(rows[i], #[trigger] select[k]),
            ).contains('\t'),
        forall|k: int| 0 <= k < select.len() ==> !(#[trigger] select[k]).contains('\t'),
    ensures
        row_lines(rows, select, "table"@) matches Ok(lines) && {
            &&& lines.len() == rows.len() + 1
            &&& pattern::pieces(lines[0], "\t"@) == select
            &&& pattern::pieces(lines[i + 1], "\t"@).len() == select.len()
            &&& forall|k: int|
                0 <= k < select.len() ==> #[trigger] pattern::pieces(lines[i + 1], "\t"@)[k]
                    == json_path::cell_text(json_path::path_value(rows[i], select[k]))
        },
{
    lemma_format_names();
    reveal_strlit("\t");
    let shown = cells(rows[i], select, false);
    assert forall|k: int| 0 <= k < shown.len() implies !(#[trigger] shown[k]).contains('\t') by {
        assert(!json_path::cell_text(json_path::path_value(rows[i], select[k])).contains('\t'));
    }
    pattern::lemma_join_then_split(shown, "\t"@);
    pattern::lemma_join_then_split(select, "\t"@);
}

/// Comma-separated values can be read back: there is a line of names and one line for each row, and each
/// line is its cells with commas between them. A cell is the text itself where that holds no comma, no
/// quote and no line break; else it stands in quotes, and each quote in it stands there twice.
pub proof fn law_csv_lines_hold_the_cells(rows: Seq<JsonView>, select: Seq<Seq<char>>, i: int) -> (r:
    Seq<Seq<char>>)
    requires
        select.len() > 0,
        0 <= i < rows.len(),
    ensures
        row_lines(rows, select, "csv"@) matches Ok(lines) && {
            &&& lines.len() == rows.len() + 1
            &&& lines[0] == pattern::joined(select, ","@)
            &&& lines[i + 1] == pattern::joined(r, ","@)
        },
        r.len() == select.len(),
        forall|k: int|
            0 <= k < select.len() ==> {
                let cell = json_path::cell_text(json_path::path_value(rows[i], select[k]));
                if cell.contains(',') || cell.contains('"') || cell.contains('\n') {
                    #[trigger] r[k] == "\""@ + pattern::replaced(cell, "\""@, "\"\""@) + "\""@
                } else {
                    r[k] == cell
                }
            },
{
    lemma_format_names();
    cells(rows[i], select, true)
}

/// The names of the formats are different.
proof fn lemma_format_names()
    ensures
        "json"@.len() == 4,
        "jsonl"@.len() == 5,
        "csv"@.len() == 3,
        "table"@.len() == 5,
        "jsonl"@[0] == 'j',
        "table"@[0] == 't',
{
    reveal_strlit("json");
    reveal_strlit("jsonl");
    reveal_strlit("csv");
    reveal_strlit("table");
}

/// Rows as JSON: all in one list on one line, or one on each line, in their order; no other names of
/// formats are known than these two, `csv` and `table`.
pub proof fn law_json_formats(rows: Seq<JsonView>, select: Seq<Seq<char>>, format: Seq<char>)
    ensures
        match row_lines(rows, select, "json"@) {
            Ok(lines) => lines.len() == 1 && json_text::json_text(JsonView::Array(rows)) == Ok::<
                Seq<char>,
                Seq<char>,
            >(lines[0]),
            Err(e) => json_text::json_text(JsonView::Array(rows)) == Err::<Seq<char>, Seq<char>>(e),
        },
        match row_lines(rows, select, "jsonl"@) {
            Ok(lines) => lines.len() == rows.len() && forall|i: int|
                0 <= i < rows.len() ==> json_text::json_text(#[trigger] rows[i]) == Ok::<
                    Seq<char>,
                    Seq<char>,
                >(lines[i]),
            Err(e) => exists|i: int|
                0 <= i < rows.len() && json_text::json_text(#[trigger] rows[i]) == Err::<
                    Seq<char>,
                    Seq<char>,
                >(e),
        },
        format != "json"@ && format != "jsonl"@ && format != "csv"@ && format != "table"@
            ==> row_lines(rows, select, format) == Err::<Seq<Seq<char>>, Seq<char>>(
            "unsupported format "@ + format,
        ),
{
    lemma_format_names();
    lemma_json_lines(rows);
}

/// JSON values on lines, one by one.
proof fn lemma_json_lines(rows: Seq<JsonView>)
    ensures
        match json_lines(rows) {
            Ok(lines) => lines.len() == rows.len() && forall|i: int|
                0 <= i < rows.len() ==> json_text::json_text(#[trigger] rows[i]) == Ok::<
                    Seq<char>,
                    Seq<char>,
                >(lines[i]),
            Err(e) => exists|i: int|
                0 <= i < rows.len() && json_text::json_text(#[trigger] rows[i]) == Err::<
                    Seq<char>,
                    Seq<char>,
                >(e),
        },
    decreases rows.len(),
{
    if rows.len() > 0 {
        let front = rows.drop_last();
        let last = rows.len() - 1;
        lemma_json_lines(front);
        match json_lines(front) {
            Ok(before) => {
                assert forall|i: int| 0 <= i < last implies json_text::json_text(
                    #[trigger] rows[i],
                ) == Ok::<Seq<char>, Seq<char>>(before[i]) by {
                    assert(front[i] == rows[i]);
                }
                assert(rows[last] == rows.last());
            },
            Err(e) => {
                let i = choose|i: int|
                    0 <= i < front.len() && json_text::json_text(#[trigger] front[i]) == Err::<
                        Seq<char>,
                        Seq<char>,
                    >(e);
                assert(rows[i] == front[i]);
            },
        }
    }
}

} // verus!
