//! Admitting catalog rows and projecting them into assembly records.
use vstd::prelude::*;
use crate::parse::{parse_rows, rows_spec};
use crate::size::{parse_size, size_spec};

verus! {

broadcast use vstd::string::group_string_axioms;

/// Column of the organism (species) name.
pub const ORGANISM_NAME_COLUMN: usize = 7;
/// Column of the version status; admitted rows hold `"latest"` here.
pub const VERSION_STATUS_COLUMN: usize = 10;
/// Column of the assembly level; admitted rows hold `"Complete Genome"` here.
pub const ASSEMBLY_LEVEL_COLUMN: usize = 11;
/// Column of the genome size in base pairs.
pub const GENOME_SIZE_COLUMN: usize = 25;
/// Column of the annotation source; admitted rows hold `"NCBI RefSeq"` here.
pub const SOURCE_COLUMN: usize = 31;

pub open spec fn version_status_value() -> Seq<char> {
    "latest"@
}

pub open spec fn assembly_level_value() -> Seq<char> {
    "Complete Genome"@
}

pub open spec fn source_value() -> Seq<char> {
    "NCBI RefSeq"@
}

/// One species observation: a name and, when the row stated one, a size.
pub struct AssemblyRecord {
    pub organism_name: String,
    pub genome_size: Option<u64>,
}

pub struct RecordView {
    pub name: Seq<char>,
    pub size: Option<u64>,
}

impl View for AssemblyRecord {
    type V = RecordView;

    open spec fn view(&self) -> RecordView {
        RecordView { name: self.organism_name@, size: self.genome_size }
    }
}

pub open spec fn records_view(v: Seq<AssemblyRecord>) -> Seq<RecordView> {
    v.map_values(|r: AssemblyRecord| r@)
}

/// Field `i` of a row, when the row is long enough to have it.
pub open spec fn field_at(row: Seq<Seq<char>>, i: int) -> Option<Seq<char>> {
    if 0 <= i < row.len() {
        Some(row[i])
    } else {
        None
    }
}

/// A row is admitted when all three selection columns hold their values exactly.
pub open spec fn admitted(row: Seq<Seq<char>>) -> bool {
    &&& field_at(row, VERSION_STATUS_COLUMN as int) == Some(version_status_value())
    &&& field_at(row, ASSEMBLY_LEVEL_COLUMN as int) == Some(assembly_level_value())
    &&& field_at(row, SOURCE_COLUMN as int) == Some(source_value())
}

/// The record of an admitted row: a missing name is empty, a missing or unreadable size is unset.
pub open spec fn projected(row: Seq<Seq<char>>) -> RecordView {
    RecordView {
        name: match field_at(row, ORGANISM_NAME_COLUMN as int) {
            Some(f) => f,
            None => Seq::empty(),
        },
        size: match field_at(row, GENOME_SIZE_COLUMN as int) {
            Some(f) => size_spec(f),
            None => None,
        },
    }
}

/// The records of the admitted rows, in row order.
pub open spec fn records_of_rows(rows: Seq<Seq<Seq<char>>>) -> Seq<RecordView>
    decreases rows.len(),
{
    if rows.len() == 0 {
        Seq::empty()
    } else {
        let prev = records_of_rows(rows.drop_last());
        if admitted(rows.last()) {
            prev.push(projected(rows.last()))
        } else {
            prev
        }
    }
}

fn field_equals(row: &Vec<String>, i: usize, value: &str) -> (r: bool)
    ensures
        r == (field_at(row.deep_view(), i as int) == Some(value@)),
{
    if i < row.len() {
        let expected = value.to_string();
        row[i] == expected
    } else {
        false
    }
}

/// Whether a row is admitted; a row too short to hold a selection column is not.
pub fn admits(row: &Vec<String>) -> (r: bool)
    ensures
        r == admitted(row.deep_view()),
{
    field_equals(row, VERSION_STATUS_COLUMN, "latest")
        && field_equals(row, ASSEMBLY_LEVEL_COLUMN, "Complete Genome")
        && field_equals(row, SOURCE_COLUMN, "NCBI RefSeq")
}

/// The record that a row projects to.
pub fn project(row: &Vec<String>) -> (r: AssemblyRecord)
    ensures
        r@ == projected(row.deep_view()),
{
    let organism_name = if ORGANISM_NAME_COLUMN < row.len() {
        row[ORGANISM_NAME_COLUMN].clone()
    } else {
        String::new()
    };
    let genome_size = if GENOME_SIZE_COLUMN < row.len() {
        parse_size(row[GENOME_SIZE_COLUMN].as_str())
    } else {
        None
    };
    AssemblyRecord { organism_name, genome_size }
}

/// The records of the admitted rows, in row order.
pub fn select_records(rows: &Vec<Vec<String>>) -> (r: Vec<AssemblyRecord>)
    ensures
        records_view(r@) == records_of_rows(rows.deep_view()),
{
    let mut out: Vec<AssemblyRecord> = Vec::new();
    let mut i: usize = 0;
    while i < rows.len()
        invariant
            i <= rows.len(),
            records_view(out@) == records_of_rows(rows.deep_view().take(i as int)),
        decreases rows.len() - i,
    {
        assert(rows.deep_view().take(i as int + 1).drop_last() =~= rows.deep_view().take(i as int));
        assert(rows.deep_view().take(i as int + 1).last() == rows[i as int].deep_view());
        if admits(&rows[i]) {
            let rec = project(&rows[i]);
            let ghost prev = records_view(out@);
            out.push(rec);
            assert(records_view(out@) =~= prev.push(rec@));
        }
        i = i + 1;
    }
    assert(rows.deep_view().take(rows.len() as int) =~= rows.deep_view());
    out
}

/// Parses catalog text and keeps the records of the admitted rows, in order.
pub fn parse_assembly_summary(data: &str) -> (r: Vec<AssemblyRecord>)
    ensures
        records_view(r@) == records_of_rows(rows_spec(data@)),
{
    let rows = parse_rows(data);
    select_records(&rows)
}

} // verus!
