//! The tracking report: a table of events with the columns task, command and
//! timestamp, drawn by `comfy_table`.

use vstd::prelude::*;
use vstd::string::StringExecFns;
use crate::command::{Command, CommandView};
use crate::query::command_views;
use crate::timestamp::rfc3339_text;

verus! {

#[verifier::external_type_specification]
#[verifier::external_body]
pub struct ExTable(comfy_table::Table);

/// The cells of a table's header row, if it has one.
pub uninterp spec fn table_header(table: comfy_table::Table) -> Option<Seq<Seq<char>>>;

/// The cells of a table's rows, in the order in which the rows were added.
pub uninterp spec fn table_rows(table: comfy_table::Table) -> Seq<Seq<Seq<char>>>;

/// The text that `comfy_table` draws for a table that was made by
/// `Table::new`, then given this header, if any, once, and these rows.
pub uninterp spec fn table_text(header: Option<Seq<Seq<char>>>, rows: Seq<Seq<Seq<char>>>) -> Seq<
    char,
>;

/// The texts of a row's cells.
pub open spec fn cell_texts(cells: Seq<String>) -> Seq<Seq<char>> {
    cells.map_values(|cell: String| cell@)
}

/// Calls `comfy_table::Table::new`.
///
/// Trusted: the new table has no header and no rows.
#[verifier::external_body]
fn empty_table() -> (table: comfy_table::Table)
    ensures
        table_header(table) is None,
        table_rows(table) == Seq::<Seq<Seq<char>>>::empty(),
{
    comfy_table::Table::new()
}

/// Calls `comfy_table::Table::set_header`, on a table that has no header yet.
///
/// Trusted: the cells become the table's header, and its rows stay. A second
/// header would leave the columns of the first behind, which neither name
/// tells of: a header is set once.
#[verifier::external_body]
fn set_table_header(table: &mut comfy_table::Table, cells: Vec<String>)
    requires
        table_header(*old(table)) is None,
    ensures
        table_header(*final(table)) == Some(cell_texts(cells@)),
        table_rows(*final(table)) == table_rows(*old(table)),
{
    table.set_header(cells);
}

/// Calls `comfy_table::Table::add_row`.
///
/// Trusted: the cells become the table's last row, and its header and the
/// rows before stay.
#[verifier::external_body]
fn add_table_row(table: &mut comfy_table::Table, cells: Vec<String>)
    ensures
        table_header(*final(table)) == table_header(*old(table)),
        table_rows(*final(table)) == table_rows(*old(table)).push(cell_texts(cells@)),
{
    table.add_row(cells);
}

/// Calls `to_string` on a `comfy_table::Table`.
///
/// Trusted: a table made by `Table::new` has a fixed style and arranges
/// nothing by the width of a terminal, and its cells carry no colours. Its
/// header was set at most once and its rows were only added, so it has as
/// many columns as its widest row. The text then depends on the header and
/// the rows alone: it is the named `table_text` of them.
#[verifier::external_body]
fn draw_table(table: &comfy_table::Table) -> (text: String)
    ensures
        text@ == table_text(table_header(*table), table_rows(*table)),
{
    table.to_string()
}

/// The header of the report.
pub open spec fn report_header() -> Seq<Seq<char>> {
    seq!["Task"@, "Command"@, "Timestamp"@]
}

/// The row of an event: its task, the name of its kind, and its time in
/// RFC 3339.
pub open spec fn report_row(event: CommandView) -> Seq<Seq<char>> {
    seq![
        event.task,
        event.command.name(),
        rfc3339_text(event.cmd_datetime.spec_secs(), event.cmd_datetime.spec_nanos()),
    ]
}

/// The rows of a report, one for each event and in the order of the events.
pub open spec fn report_rows(events: Seq<CommandView>) -> Seq<Seq<Seq<char>>> {
    events.map_values(|event: CommandView| report_row(event))
}

/// The report of a list of events: the table with the report's header and one
/// row for each event.
pub open spec fn report_text(events: Seq<CommandView>) -> Seq<char> {
    table_text(Some(report_header()), report_rows(events))
}

/// The cells of an event's row.
pub fn row_of(event: &Command) -> (cells: Vec<String>)
    ensures
        cell_texts(cells@) == report_row(event@),
{
    let mut cells: Vec<String> = Vec::new();
    cells.push(event.task.clone());
    cells.push(event.command.to_string());
    cells.push(event.cmd_datetime.to_rfc3339());
    proof {
        assert(cell_texts(cells@) == report_row(event@));
    }
    cells
}

/// Writes the tracking report of the events to `destination`, in place of
/// what was there.
pub fn write_tracking_report(destination: &mut String, cmd_list: &Vec<Command>)
    ensures
        final(destination)@ == report_text(command_views(cmd_list@)),
{
    let mut table = empty_table();
    let mut header: Vec<String> = Vec::new();
    header.push(String::from_str("Task"));
    header.push(String::from_str("Command"));
    header.push(String::from_str("Timestamp"));
    proof {
        assert(cell_texts(header@) == report_header());
    }
    set_table_header(&mut table, header);
    let mut i: usize = 0;
    while i < cmd_list.len()
        invariant
            i <= cmd_list@.len(),
            table_header(table) == Some(report_header()),
            table_rows(table) == report_rows(command_views(cmd_list@).take(i as int)),
        decreases cmd_list@.len() - i,
    {
        let cells = row_of(&cmd_list[i]);
        add_table_row(&mut table, cells);
        proof {
            assert(report_rows(command_views(cmd_list@).take(i + 1)) == report_rows(
                command_views(cmd_list@).take(i as int),
            ).push(report_row(cmd_list@[i as int]@)));
        }
        i = i + 1;
    }
    proof {
        assert(command_views(cmd_list@).take(i as int) == command_views(cmd_list@));
    }
    *destination = draw_table(&table);
}

} // verus!
