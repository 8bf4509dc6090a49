//! Rendering the report as comma-separated text.
use vstd::prelude::*;
use crate::index::{get_genome_sizes, index_of, GenomeSizeIndex};
use crate::parse::rows_spec;
use crate::record::{parse_assembly_summary, records_of_rows};
use crate::report::{is_report_of, rows_view, sorted_report, ReportRow};
use crate::size::{decimal_spec, format_size};
use vstd::utf8::encode_utf8;

verus! {

broadcast use vstd::string::group_string_axioms;

#[verifier::external_type_specification]
#[verifier::external_body]
pub struct ExCsvError(csv::Error);

/// A character that makes the csv writer quote the field holding it.
pub open spec fn needs_quoting(c: char) -> bool {
    c == ',' || c == '"' || c == '\n' || c == '\r'
}

/// A field's characters with each `"` doubled.
pub open spec fn double_quotes(f: Seq<char>) -> Seq<char>
    decreases f.len(),
{
    if f.len() == 0 {
        Seq::empty()
    } else if f.last() == '"' {
        double_quotes(f.drop_last()) + seq!['"', '"']
    } else {
        double_quotes(f.drop_last()).push(f.last())
    }
}

/// One field as written: quoted, inner quotes doubled, exactly when it holds a
/// comma, a quote, a line feed or a carriage return; else as it is.
pub open spec fn csv_field(f: Seq<char>) -> Seq<char> {
    if exists|i: int| 0 <= i < f.len() && needs_quoting(#[trigger] f[i]) {
        seq!['"'] + double_quotes(f) + seq!['"']
    } else {
        f
    }
}

/// The written fields joined by commas.
pub open spec fn join_fields(fields: Seq<Seq<char>>) -> Seq<char>
    decreases fields.len(),
{
    if fields.len() == 0 {
        Seq::empty()
    } else if fields.len() == 1 {
        csv_field(fields[0])
    } else {
        join_fields(fields.drop_last()).push(',') + csv_field(fields.last())
    }
}

/// One record as the csv writer (default settings) writes it: the joined fields,
/// or `""` where they come to nothing, then a line feed; encoded as UTF-8.
pub open spec fn csv_record_bytes(fields: Seq<Seq<char>>) -> Seq<u8> {
    let body = join_fields(fields);
    encode_utf8((if body.len() == 0 { seq!['"', '"'] } else { body }).push('\n'))
}

/// Relies on `csv::Writer` with the default builder, writing one record into a
/// fresh `Vec<u8>`: `write_record` then `into_inner` give the record's bytes, and
/// neither can fail, as writing into a `Vec` never fails and a fresh writer has
/// no earlier record whose field count could differ.
#[verifier::external_body]
fn write_csv_record(fields: &Vec<String>) -> (r: Result<Vec<u8>, csv::Error>)
    ensures
        r is Ok,
        r matches Ok(b) ==> b@ == csv_record_bytes(fields.deep_view()),
{
    let mut wtr = csv::Writer::from_writer(Vec::new());
    wtr.write_record(fields)?;
    wtr.into_inner().map_err(|e| csv::Error::from(e.into_error()))
}

/// Rendering the report failed.
#[derive(Debug, Clone, Copy, PartialEq, Eq, Structural)]
pub enum ReportError {
    /// The csv writer refused a record.
    Csv,
}

pub open spec fn header_fields() -> Seq<Seq<char>> {
    seq!["Species"@, "Genome Size (bp)"@]
}

/// The report as a table: the header, then one record per row with the size in decimal.
pub open spec fn report_table_spec(rows: Seq<(Seq<char>, u64)>) -> Seq<Seq<Seq<char>>> {
    seq![header_fields()] + rows.map_values(|r: (Seq<char>, u64)| seq![r.0, decimal_spec(r.1 as nat)])
}

/// The bytes of a table: its records rendered one after another.
pub open spec fn csv_text_spec(table: Seq<Seq<Seq<char>>>) -> Seq<u8>
    decreases table.len(),
{
    if table.len() == 0 {
        Seq::empty()
    } else {
        csv_text_spec(table.drop_last()) + csv_record_bytes(table.last())
    }
}

/// The header record followed by one record per report row.
pub fn report_table(rows: &Vec<ReportRow>) -> (r: Vec<Vec<String>>)
    ensures
        r.deep_view() == report_table_spec(rows_view(rows@)),
{
    let header: Vec<String> = vec!["Species".to_string(), "Genome Size (bp)".to_string()];
    assert(header.deep_view() =~= header_fields());
    let ghost head = header.deep_view();
    let mut table: Vec<Vec<String>> = Vec::new();
    table.push(header);
    let ghost goal = report_table_spec(rows_view(rows@));
    assert(table.deep_view() =~= seq![head]);
    assert(table.deep_view() =~= goal.take(1));
    let mut i: usize = 0;
    while i < rows.len()
        invariant
            i <= rows@.len(),
            goal == report_table_spec(rows_view(rows@)),
            goal.len() == rows@.len() + 1,
            table.deep_view() == goal.take(i as int + 1),
        decreases rows.len() - i,
    {
        let record: Vec<String> = vec![rows[i].species.clone(), format_size(rows[i].size)];
        assert(record.deep_view() =~= goal[i as int + 1]);
        let ghost prev = table.deep_view();
        let ghost rec = record.deep_view();
        table.push(record);
        assert(table.deep_view() =~= prev.push(rec));
        assert(table.deep_view() =~= goal.take(i as int + 2));
        i = i + 1;
    }
    assert(goal.take(rows@.len() as int + 1) =~= goal);
    table
}

/// The bytes of a table, record by record.
pub fn render_table(table: &Vec<Vec<String>>) -> (r: Result<Vec<u8>, ReportError>)
    ensures
        r is Ok,
        r matches Ok(b) ==> b@ == csv_text_spec(table.deep_view()),
{
    let mut out: Vec<u8> = Vec::new();
    let mut i: usize = 0;
    while i < table.len()
        invariant
            i <= table@.len(),
            out@ == csv_text_spec(table.deep_view().take(i as int)),
        decreases table.len() - i,
    {
        assert(table.deep_view().take(i as int + 1).drop_last() =~= table.deep_view().take(i as int));
        let mut bytes = match write_csv_record(&table[i]) {
            Ok(b) => b,
            Err(_) => return Err(ReportError::Csv),
        };
        out.append(&mut bytes);
        i = i + 1;
    }
    assert(table.deep_view().take(table@.len() as int) =~= table.deep_view());
    Ok(out)
}

/// The comma-separated report of an index: the header `Species,Genome Size (bp)`,
/// then one record per species in report order.
pub fn render_report(index: &GenomeSizeIndex) -> (r: Result<Vec<u8>, ReportError>)
    requires
        index.wf(),
    ensures
        r is Ok,
        r matches Ok(b) ==> exists|rows: Seq<(Seq<char>, u64)>| is_report_of(rows, index@)
            && b@ == csv_text_spec(report_table_spec(rows)),
{
    let rows = sorted_report(index);
    let table = report_table(&rows);
    render_table(&table)
}

/// The whole pipeline on catalog text: parse, admit, aggregate, sort and render.
pub fn genome_size_report(data: &str) -> (r: Result<Vec<u8>, ReportError>)
    ensures
        r is Ok,
        r matches Ok(b) ==> exists|rows: Seq<(Seq<char>, u64)>|
            is_report_of(rows, index_of(records_of_rows(rows_spec(data@))))
            && b@ == csv_text_spec(report_table_spec(rows)),
{
    let records = parse_assembly_summary(data);
    let index = get_genome_sizes(records);
    render_report(&index)
}

} // verus!
