use std::path::Path;

use acrf::annotation::content::{Annotation, PageDescription};
use acrf::annotation::fetcher::{fetch, PageAnnotation};
use acrf::exporter::raw::RawSet;
use acrf::exporter::utils::{copy_pages, pages_text, qval_annotation, sheet};
use acrf::exporter::value::{annotation_need_process, ValueSet};
use acrf::exporter::variable::VariableSet;
use acrf::Exporter;
use lopdf::Document;
use rust_xlsxwriter::Workbook;

fn pages_of(path: &Path) -> Vec<Vec<PageAnnotation>> {
    let mut pages = Vec::new();
    let pdf = match Document::load(path) {
        Ok(pdf) => pdf,
        Err(_) => return pages,
    };
    for (index, page_id) in pdf.page_iter().enumerate() {
        let mut objects = Vec::new();
        if index > 0 {
            for dictionary in pdf.get_page_annotations(page_id).unwrap_or_default() {
                let color = match dictionary.get(b"C").and_then(|c| c.as_array()) {
                    Ok(parts) => {
                        Some(parts.iter().map(|n| n.as_float().unwrap_or(0.0) == 1.0).collect())
                    }
                    Err(_) => None,
                };
                let contents = match dictionary.get(b"Contents").and_then(|c| c.as_str()) {
                    Ok(bytes) => Some(bytes.to_vec()),
                    Err(_) => None,
                };
                objects.push(PageAnnotation { color, contents });
            }
        }
        pages.push(objects);
    }
    pages
}

fn record(domain: &str, variable: &str, pages: &[(usize, &[&str])]) -> Annotation {
    Annotation {
        id: format!("{}-{}", domain, variable),
        domain: domain.to_string(),
        domain_id: "100".to_string(),
        variable: variable.to_string(),
        page_description: pages
            .iter()
            .map(|(page, clauses)| PageDescription {
                page: *page,
                description: clauses.iter().map(|c| c.to_string()).collect(),
            })
            .collect(),
        supp: domain.starts_with("SUPP"),
        raw: format!("raw {}", variable),
    }
}

fn row(cells: &[&str]) -> Vec<String> {
    cells.iter().map(|c| c.to_string()).collect()
}

fn wide(dataset: &str, variable: &str, clause: &str, pages: &str) -> Vec<String> {
    row(&["", dataset, variable, clause, "", "", "", "", "", "", "", "", "CRF", "", pages])
}

fn variable_row(dataset: &str, variable: &str, pages: &str) -> Vec<String> {
    row(&["", dataset, variable, "", "", "", "", "", "", "", "", "", "CRF", "", pages])
}

const VALUE_HEADER: &[&str] = &[
    "Order\t",
    "Dataset\t",
    "Variable\t",
    "Where Clause\t",
    "Label\t",
    "Data Type\t",
    "Length\t",
    "Significant Digits\t",
    "Format\t",
    "Mandatory\t",
    "Assigned Value\t",
    "Codelist\t",
    "Origin\t",
    "Source\t",
    "Pages\t",
];

const VARIABLE_HEADER: &[&str] = &[
    "Order  ",
    "Dataset    ",
    "Variable\t",
    "Label\t",
    "Data Type\t",
    "Length\t",
    "Significant Digits\t",
    "Format\t",
    "Mandatory\t",
    "Assigned Value\t",
    "Codelist\t",
    "Common\t",
    "Origin\t",
    "Source\t",
    "Pages  ",
];

fn sample() -> Vec<Annotation> {
    vec![
        record("AE", "AETERM", &[(2, &[]), (3, &["AETERM = X"])]),
        record("AE", "AESER", &[(2, &["AESER = Y"]), (4, &["AESER = Y"])]),
        record("VS", "VSORRES", &[(5, &["VSORRES = 1", "VSTESTCD = TEMP"]), (6, &["VSTESTCD = TEMP"]), (7, &[])]),
        record("SUPPAE", "AESI", &[(8, &[])]),
        record("RELREC", "RELREC", &[(9, &["RELREC = x"])]),
    ]
}

#[test]
fn export_test() {
    let acrf = Path::new(r"D:\projects\rusty\acrf\AK111-203_aCRF v2.2.pdf");
    let annotations = fetch(&pages_of(acrf));
    let dest = Path::new(r"D:\projects\rusty\acrf");
    let mut worker = Exporter::new();
    worker.add_annotations(&annotations);
    let mut workbook = Workbook::new();
    for rows in [worker.variable_sheet(), worker.value_sheet(), worker.raw_sheet()] {
        let worksheet = workbook.add_worksheet();
        for (index, item) in rows.iter().enumerate() {
            worksheet.write_row(index as u32, 0, item.to_vec()).unwrap();
        }
    }
    if dest.is_dir() {
        workbook.save(dest.join("result.xlsx")).unwrap();
    } else {
        workbook.save_to_buffer().unwrap();
    }
}

#[test]
fn the_qualifier_value_of_a_supplemental_record() {
    let source = record("SUPPAE", "AESI", &[(8, &["AESI = Y"]), (9, &[])]);
    let qval = qval_annotation(&source);
    assert_eq!(qval.id, "SUPPAE-QVAL");
    assert_eq!(qval.domain, "SUPPAE");
    assert_eq!(qval.domain_id, "");
    assert_eq!(qval.variable, "QVAL");
    assert_eq!(qval.raw, "raw AESI");
    assert!(qval.supp);
    assert_eq!(
        qval.page_description,
        vec![
            PageDescription { page: 8, description: row(&["QNAM = AESI"]) },
            PageDescription { page: 9, description: row(&["QNAM = AESI"]) },
        ]
    );
    let empty = qval_annotation(&record("SUPPAE", "AESI", &[]));
    assert!(empty.page_description.is_empty());
}

#[test]
fn the_table_of_raw_annotations() {
    let mut set = RawSet::new();
    assert_eq!(set.export(), vec![row(&["Domain", "Variable", "Description", "Pages"])]);
    set.add_annotations(&sample()[0..2]);
    assert_eq!(
        set.export(),
        vec![
            row(&["Domain", "Variable", "Description", "Pages"]),
            row(&["AE", "AESER", "AESER = Y", "2 4"]),
            row(&["AE", "AETERM", "", "2"]),
            row(&["AE", "AETERM", "AETERM = X", "3"]),
        ]
    );
    set.add(&record("AE", "AETERM", &[(2, &[]), (10, &["AETERM = X", "other"])]));
    set.add(&record("SUPPAE", "AESI", &[(8, &[])]));
    assert_eq!(
        set.export(),
        vec![
            row(&["Domain", "Variable", "Description", "Pages"]),
            row(&["AE", "AESER", "AESER = Y", "2 4"]),
            row(&["AE", "AETERM", "", "2 2"]),
            row(&["AE", "AETERM", "AETERM = X", "3 10"]),
            row(&["AE", "AETERM", "other", "10"]),
            row(&["SUPPAE", "AESI", "", "8"]),
        ]
    );
}

#[test]
fn the_table_of_value_level_clauses() {
    let mut set = ValueSet::new();
    assert_eq!(set.export(), vec![row(VALUE_HEADER)]);
    set.add_annotations(&sample());
    assert_eq!(
        set.export(),
        vec![
            row(VALUE_HEADER),
            wide("SUPPAE", "QVAL", "QNAM EQ AESI", "8"),
            wide("VS", "VSORRES", "VSTESTCD EQ TEMP", "5 6"),
        ]
    );
    set.add(&record("SUPPAE", "AESEV", &[(8, &[]), (11, &[])]));
    set.add(&record("SUPPVS", "VSORRES", &[(12, &["no code"])]));
    set.add(&record("AE", "AETERM", &[(12, &["AETERM = X"])]));
    assert_eq!(
        set.export(),
        vec![
            row(VALUE_HEADER),
            wide("SUPPAE", "QVAL", "QNAM EQ AESI", "8"),
            wide("SUPPAE", "QVAL", "QNAM EQ AESEV", "8 11"),
            wide("SUPPVS", "QVAL", "QNAM EQ VSORRES", "12"),
            wide("VS", "VSORRES", "VSTESTCD EQ TEMP", "5 6"),
        ]
    );
}

#[test]
fn the_parts_of_the_table_of_value_level_clauses() {
    assert!(annotation_need_process(&record("VS", "VSORRES", &[])));
    assert!(annotation_need_process(&record("SUPPAE", "AESI", &[])));
    assert!(!annotation_need_process(&record("AE", "AETERM", &[])));
    assert!(!annotation_need_process(&record("VS", "VSORRESU", &[])));
    let mut direct = ValueSet::new();
    direct.add_variable(&record("AE", "AETERM", &[(2, &["AETERM = X", "  "]), (3, &[])]));
    assert_eq!(direct.export(), vec![row(VALUE_HEADER), wide("AE", "AETERM", "AETERM EQ X", "2")]);
    let mut supp = ValueSet::new();
    supp.add_supp_variable(&record("AE", "AETERM", &[(2, &[])]));
    assert_eq!(supp.export(), vec![row(VALUE_HEADER), wide("AE", "QVAL", "QNAM EQ AETERM", "2")]);
}

#[test]
fn the_table_of_variables() {
    let mut set = VariableSet::new();
    assert_eq!(set.export(), vec![row(VARIABLE_HEADER)]);
    set.add_annotations(&sample());
    assert_eq!(
        set.export(),
        vec![
            row(VARIABLE_HEADER),
            variable_row("AE", "AESER", "2 4"),
            variable_row("AE", "AETERM", "2 3"),
            variable_row("SUPPAE", "QVAL", "8"),
            variable_row("VS", "VSORRES", "5 6 7"),
        ]
    );
    set.add(&record("AE", "AETERM", &[(3, &[]), (1, &[]), (3, &[])]));
    set.add(&record("SUPPAE", "AESEV", &[(9, &[]), (8, &[])]));
    set.add(&record("DM", "AGE", &[(5, &[]), (5, &[]), (4, &[])]));
    assert_eq!(
        set.export(),
        vec![
            row(VARIABLE_HEADER),
            variable_row("AE", "AESER", "2 4"),
            variable_row("AE", "AETERM", "1 2 3"),
            variable_row("DM", "AGE", "5 5 4"),
            variable_row("SUPPAE", "QVAL", "8 9"),
            variable_row("VS", "VSORRES", "5 6 7"),
        ]
    );
    let mut renamed = record("XX", "OTHER", &[(20, &[])]);
    renamed.id = "DM-AGE".to_string();
    set.add_variable(&renamed);
    assert_eq!(set.export()[5], variable_row("XX", "OTHER", "4 5 20"));
    let mut direct = VariableSet::new();
    direct.add_supp_variable(&record("AE", "AETERM", &[(2, &[])]));
    direct.add_variable(&record("XX", "RELREC", &[(2, &[])]));
    assert_eq!(direct.export(), vec![row(VARIABLE_HEADER), variable_row("AE", "QVAL", "2")]);
}

#[test]
fn the_three_tables_are_filled_together() {
    let mut exporter = Exporter::new();
    exporter.add_annotations(&sample());
    let mut raws = RawSet::new();
    raws.add_annotations(&sample());
    let mut values = ValueSet::new();
    values.add_annotations(&sample());
    let mut variables = VariableSet::new();
    variables.add_annotations(&sample());
    assert_eq!(exporter.raw_sheet(), raws.export());
    assert_eq!(exporter.value_sheet(), values.export());
    assert_eq!(exporter.variable_sheet(), variables.export());
    assert_eq!(exporter.raw_sheet().len(), 9);
}

#[test]
fn pages_are_listed_with_blanks() {
    assert_eq!(pages_text(&vec![]), "");
    assert_eq!(pages_text(&vec![7]), "7");
    assert_eq!(pages_text(&vec![3, 10, 3, 0]), "3 10 3 0");
    assert_eq!(copy_pages(&vec![3, 1, 2]), vec![3, 1, 2]);
}

#[test]
fn a_sheet_is_sorted_by_two_columns() {
    let rows = vec![row(&["1", "b", "y"]), row(&["2", "a", "z"]), row(&["3", "b", "x"]), row(&["4", "a", "z"])];
    assert_eq!(
        sheet(row(&["n", "k1", "k2"]), &rows, 1, 2),
        vec![
            row(&["n", "k1", "k2"]),
            row(&["2", "a", "z"]),
            row(&["4", "a", "z"]),
            row(&["3", "b", "x"]),
            row(&["1", "b", "y"]),
        ]
    );
    assert_eq!(sheet(row(&["only"]), &vec![], 0, 0), vec![row(&["only"])]);
}
