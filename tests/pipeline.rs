use genome_sizes::decode::{decode_catalog, DecodeError};
use genome_sizes::index::{get_genome_sizes, GenomeSizeIndex};
use genome_sizes::order::name_less;
use genome_sizes::parse::parse_rows;
use genome_sizes::record::{admits, parse_assembly_summary, project, select_records, AssemblyRecord};
use genome_sizes::render::{genome_size_report, render_report, render_table, report_table};
use genome_sizes::report::{sorted_report, ReportRow};
use genome_sizes::size::{format_size, parse_size};

fn catalog_row(name: &str, status: &str, level: &str, size: &str, source: &str) -> Vec<String> {
    let mut row: Vec<String> = (0..32).map(|i| format!("c{}", i)).collect();
    row[7] = name.to_string();
    row[10] = status.to_string();
    row[11] = level.to_string();
    row[25] = size.to_string();
    row[31] = source.to_string();
    row
}

fn catalog_line(name: &str, size: &str) -> String {
    catalog_row(name, "latest", "Complete Genome", size, "NCBI RefSeq").join("\t")
}

fn record(name: &str, size: Option<u64>) -> AssemblyRecord {
    AssemblyRecord { organism_name: name.to_string(), genome_size: size }
}

fn index_pairs(index: &GenomeSizeIndex) -> Vec<(String, u64)> {
    sorted_report(index).into_iter().map(|r| (r.species, r.size)).collect()
}

fn text(bytes: Vec<u8>) -> String {
    String::from_utf8(bytes).unwrap()
}

#[test]
fn mismatched_source_marker_is_excluded() {
    let mut row: Vec<String> = ["a", "b", "c", "d", "e", "f", "g", "h", "i", "j", "latest", "Complete Genome"]
        .iter()
        .map(|s| s.to_string())
        .collect();
    for i in 0..30 {
        row.push(format!("x{}", i));
    }
    row[31] = "NCBIRefSeq".to_string();
    assert!(!admits(&row));
    row[31] = "NCBI RefSeq".to_string();
    assert!(admits(&row));
}

#[test]
fn largest_size_wins_for_one_species() {
    let data = format!("{}\n{}\n", catalog_line("Foo", "1000000"), catalog_line("Foo", "2500000"));
    let records = parse_assembly_summary(&data);
    assert_eq!(records.len(), 2);
    let index = get_genome_sizes(records);
    assert_eq!(index.get(&"Foo".to_string()), Some(2500000));
    assert_eq!(index.len(), 1);
}

#[test]
fn unreadable_size_leaves_index_untouched() {
    let data = catalog_line("Bar", "N/A");
    let records = parse_assembly_summary(&data);
    assert_eq!(records.len(), 1);
    assert_eq!(records[0].organism_name, "Bar");
    assert_eq!(records[0].genome_size, None);
    let index = get_genome_sizes(records);
    assert_eq!(index.len(), 0);
    assert_eq!(index.get(&"Bar".to_string()), None);
}

#[test]
fn empty_input_gives_header_only() {
    let report = genome_size_report("# assembly summary\n#   comment only\n").unwrap();
    assert_eq!(text(report), "Species,Genome Size (bp)\n");
    let report = genome_size_report("").unwrap();
    assert_eq!(text(report), "Species,Genome Size (bp)\n");
}

#[test]
fn equal_sizes_order_by_name() {
    let data = format!("{}\n{}\n", catalog_line("Zeta", "3000000"), catalog_line("Alpha", "3000000"));
    let report = genome_size_report(&data).unwrap();
    assert_eq!(text(report), "Species,Genome Size (bp)\nAlpha,3000000\nZeta,3000000\n");
}

#[test]
fn report_sorted_by_size_ascending() {
    let data = format!(
        "#comment\n{}\n{}\r\n{}\n\n",
        catalog_line("Big", "9000000"),
        catalog_line("Small", "120"),
        catalog_line("Mid", "4400000")
    );
    let report = genome_size_report(&data).unwrap();
    assert_eq!(text(report), "Species,Genome Size (bp)\nSmall,120\nMid,4400000\nBig,9000000\n");
}

#[test]
fn species_with_comma_is_quoted() {
    let mut index = GenomeSizeIndex::new();
    index.record_size(&record("Escherichia coli str. K-12, MG1655", Some(4641652)));
    let report = render_report(&index).unwrap();
    assert_eq!(text(report), "Species,Genome Size (bp)\n\"Escherichia coli str. K-12, MG1655\",4641652\n");
}

#[test]
fn render_table_joins_records() {
    let table = vec![
        vec!["a".to_string(), "b".to_string()],
        vec!["say \"hi\"".to_string(), "1".to_string()],
    ];
    assert_eq!(text(render_table(&table).unwrap()), "a,b\n\"say \"\"hi\"\"\",1\n");
    assert_eq!(render_table(&Vec::new()).unwrap(), Vec::<u8>::new());
}

#[test]
fn report_table_has_header_and_rows() {
    let rows = vec![ReportRow { species: "Foo".to_string(), size: 42 }];
    let table = report_table(&rows);
    assert_eq!(table, vec![
        vec!["Species".to_string(), "Genome Size (bp)".to_string()],
        vec!["Foo".to_string(), "42".to_string()],
    ]);
}

#[test]
fn aggregating_twice_changes_nothing() {
    let recs = vec![record("A", Some(5)), record("B", Some(7)), record("A", Some(9)), record("C", None)];
    let once = get_genome_sizes(recs);
    let twice_input = vec![
        record("A", Some(5)), record("B", Some(7)), record("A", Some(9)), record("C", None),
        record("A", Some(5)), record("B", Some(7)), record("A", Some(9)), record("C", None),
    ];
    let twice = get_genome_sizes(twice_input);
    assert_eq!(index_pairs(&once), index_pairs(&twice));
    let mut again = get_genome_sizes(vec![record("A", Some(5)), record("B", Some(7)), record("A", Some(9))]);
    for r in [record("A", Some(5)), record("B", Some(7)), record("A", Some(9))] {
        again.record_size(&r);
    }
    assert_eq!(index_pairs(&again), vec![("B".to_string(), 7), ("A".to_string(), 9)]);
}

#[test]
fn record_order_does_not_matter() {
    let a = get_genome_sizes(vec![record("A", Some(5)), record("B", Some(7)), record("A", Some(9))]);
    let b = get_genome_sizes(vec![record("A", Some(9)), record("A", Some(5)), record("B", Some(7))]);
    let c = get_genome_sizes(vec![record("B", Some(7)), record("A", Some(9)), record("A", Some(5))]);
    assert_eq!(index_pairs(&a), index_pairs(&b));
    assert_eq!(index_pairs(&a), index_pairs(&c));
}

#[test]
fn stored_size_never_decreases() {
    let mut index = GenomeSizeIndex::new();
    let name = "S".to_string();
    let mut last = 0;
    for size in [10u64, 30, 20, 30, 5, 40] {
        index.record_size(&record("S", Some(size)));
        let now = index.get(&name).unwrap();
        assert!(now >= last);
        last = now;
    }
    assert_eq!(last, 40);
    index.record_size(&record("S", None));
    assert_eq!(index.get(&name), Some(40));
}

#[test]
fn short_rows_are_never_admitted() {
    let full = catalog_row("Foo", "latest", "Complete Genome", "10", "NCBI RefSeq");
    assert!(admits(&full));
    for len in [0usize, 10, 11, 12, 25, 31] {
        let row: Vec<String> = full[..len].to_vec();
        assert!(!admits(&row), "row of {} fields admitted", len);
    }
}

#[test]
fn predicate_is_exact() {
    assert!(!admits(&catalog_row("Foo", "Latest", "Complete Genome", "10", "NCBI RefSeq")));
    assert!(!admits(&catalog_row("Foo", "latest", "Complete Genome ", "10", "NCBI RefSeq")));
    assert!(!admits(&catalog_row("Foo", "latest", "Chromosome", "10", "NCBI RefSeq")));
    assert!(!admits(&catalog_row("Foo", "latest", "Complete Genome", "10", "ncbi refseq")));
}

#[test]
fn size_round_trip() {
    for n in [0u64, 7, 10, 1000000, 2500000, u64::MAX] {
        assert_eq!(parse_size(&format_size(n)), Some(n));
    }
    assert_eq!(format_size(3000000), "3000000");
    assert_eq!(format_size(0), "0");
}

#[test]
fn size_parse_rejects_non_numbers() {
    assert_eq!(parse_size("N/A"), None);
    assert_eq!(parse_size(""), None);
    assert_eq!(parse_size("-5"), None);
    assert_eq!(parse_size("1.5e6"), None);
    assert_eq!(parse_size("inf"), None);
    assert_eq!(parse_size("18446744073709551616"), None);
    assert_eq!(parse_size("18446744073709551615"), Some(u64::MAX));
    assert_eq!(parse_size("0042"), Some(42));
}

#[test]
fn parse_rows_splits_on_tabs() {
    let rows = parse_rows("#x\ta\na\t\tb\r\n\nc\n");
    assert_eq!(rows, vec![
        vec!["a".to_string(), "".to_string(), "b".to_string()],
        vec!["c".to_string()],
    ]);
    assert!(parse_rows("").is_empty());
    let rows = parse_rows("\"q\tr\"\n");
    assert_eq!(rows, vec![vec!["\"q".to_string(), "r\"".to_string()]]);
}

#[test]
fn project_missing_fields() {
    let rec = project(&vec!["only".to_string()]);
    assert_eq!(rec.organism_name, "");
    assert_eq!(rec.genome_size, None);
    let rec = project(&catalog_row("Foo", "latest", "Complete Genome", "123", "NCBI RefSeq"));
    assert_eq!(rec.organism_name, "Foo");
    assert_eq!(rec.genome_size, Some(123));
}

#[test]
fn select_keeps_admitted_in_order() {
    let rows = vec![
        catalog_row("One", "latest", "Complete Genome", "1", "NCBI RefSeq"),
        catalog_row("Skip", "replaced", "Complete Genome", "2", "NCBI RefSeq"),
        catalog_row("Two", "latest", "Complete Genome", "3", "NCBI RefSeq"),
    ];
    let recs = select_records(&rows);
    let names: Vec<String> = recs.into_iter().map(|r| r.organism_name).collect();
    assert_eq!(names, vec!["One".to_string(), "Two".to_string()]);
}

#[test]
fn name_order_by_code_point() {
    assert!(name_less(&"Abc".to_string(), &"Abd".to_string()));
    assert!(name_less(&"Ab".to_string(), &"Abc".to_string()));
    assert!(!name_less(&"Abc".to_string(), &"Abc".to_string()));
    assert!(name_less(&"Zeta".to_string(), &"alpha".to_string()));
    assert!(!name_less(&"b".to_string(), &"a".to_string()));
}

#[test]
fn decode_accepts_utf8_only() {
    assert_eq!(decode_catalog(vec![0x61, 0x09, 0xc3, 0xa9]), Ok("a\t\u{e9}".to_string()));
    assert_eq!(decode_catalog(Vec::new()), Ok(String::new()));
    assert_eq!(decode_catalog(vec![0x61, 0xff, 0x62]), Err(DecodeError::InvalidUtf8));
    assert_eq!(decode_catalog(vec![0xc3]), Err(DecodeError::InvalidUtf8));
}

#[test]
fn size_fraction_rounds_half_up() {
    assert_eq!(parse_size("12.5"), Some(13));
    assert_eq!(parse_size("12.49"), Some(12));
    assert_eq!(parse_size("2500000.6"), Some(2500001));
    assert_eq!(parse_size("7.0"), Some(7));
    assert_eq!(parse_size("0.5"), Some(1));
    assert_eq!(parse_size("18446744073709551615.4"), Some(u64::MAX));
    assert_eq!(parse_size("18446744073709551615.5"), None);
    assert_eq!(parse_size("1."), None);
    assert_eq!(parse_size(".5"), None);
    assert_eq!(parse_size("1.2.3"), None);
    assert_eq!(parse_size("1.x"), None);
}

#[test]
fn fractional_sizes_in_report() {
    let data = format!("{}\n{}\n", catalog_line("Foo", "2500000.6"), catalog_line("Foo", "2500000"));
    let report = genome_size_report(&data).unwrap();
    assert_eq!(text(report), "Species,Genome Size (bp)\nFoo,2500001\n");
}

#[test]
fn three_species_ascending() {
    let mut index = GenomeSizeIndex::new();
    index.record_size(&record("A", Some(5000000)));
    index.record_size(&record("B", Some(1000000)));
    index.record_size(&record("C", Some(3000000)));
    let report = render_report(&index).unwrap();
    assert_eq!(text(report), "Species,Genome Size (bp)\nB,1000000\nC,3000000\nA,5000000\n");
}

#[test]
fn lone_empty_field_is_quoted() {
    let table = vec![vec!["".to_string()], vec!["x\ry".to_string(), "".to_string()]];
    assert_eq!(text(render_table(&table).unwrap()), "\"\"\n\"x\ry\",\n");
}
