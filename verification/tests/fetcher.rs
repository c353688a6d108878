use std::path::Path;

use acrf::annotation::content::{add_clauses, once_each, Annotation, PageDescription};
use acrf::annotation::decoder::decode_gb18030;
use acrf::annotation::fetcher::{domain_id, fetch, normalize, AnnotationFetcher, PageAnnotation};
use lopdf::Document;

/// The annotations of the pages of a document; none where it cannot be read.
fn pages_of(path: &Path) -> Vec<Vec<PageAnnotation>> {
    let mut pages = Vec::new();
    let pdf = match Document::load(path) {
        Ok(pdf) => pdf,
        Err(_) => return pages,
    };
    for (index, page_id) in pdf.page_iter().enumerate() {
        let mut objects = Vec::new();
        if index > 0 {
            for dictionary in pdf.get_page_annotations(page_id).unwrap_or_default() {
                let color = match dictionary.get(b"C").and_then(|c| c.as_array()) {
                    Ok(parts) => {
                        Some(parts.iter().map(|n| n.as_float().unwrap_or(0.0) == 1.0).collect())
                    }
                    Err(_) => None,
                };
                let contents = match dictionary.get(b"Contents").and_then(|c| c.as_str()) {
                    Ok(bytes) => Some(bytes.to_vec()),
                    Err(_) => None,
                };
                objects.push(PageAnnotation { color, contents });
            }
        }
        pages.push(objects);
    }
    pages
}

fn note(color: Option<&[bool]>, text: Option<&str>) -> PageAnnotation {
    PageAnnotation {
        color: color.map(|c| c.to_vec()),
        contents: text.map(|t| t.as_bytes().to_vec()),
    }
}

fn record(id: &str, page: usize, clauses: &[&str]) -> Annotation {
    let (domain, variable) = id.split_once('-').unwrap_or(("", id));
    Annotation {
        id: id.to_string(),
        domain: domain.to_string(),
        domain_id: "000".to_string(),
        variable: variable.to_string(),
        page_description: vec![PageDescription {
            page,
            description: clauses.iter().map(|c| c.to_string()).collect(),
        }],
        supp: false,
        raw: id.to_string(),
    }
}

fn history(a: &Annotation) -> Vec<(usize, Vec<String>)> {
    a.page_description.iter().map(|p| (p.page, p.description.clone())).collect()
}

fn texts(list: &[&str]) -> Vec<String> {
    list.iter().map(|s| s.to_string()).collect()
}

#[test]
fn test_fetch_annotation() {
    let acrf = Path::new(r"D:\projects\rusty\acrf\105-302.pdf");
    let mut fetcher = AnnotationFetcher::new();
    fetcher.fetch(&pages_of(acrf));
    let result = fetcher.annotations();
    result.iter().for_each(|a| {
        println!("{:?}", a);
    });
}

#[test]
fn a_new_fetcher_holds_nothing() {
    let fetcher = AnnotationFetcher::new();
    assert!(fetcher.annotations().is_empty());
    assert_eq!(fetcher.current_domain(), None);
    assert!(fetch(&vec![]).is_empty());
}

#[test]
fn markers_are_read_from_colours() {
    assert_eq!(domain_id(&[true, false, true]), "101");
    assert_eq!(domain_id(&[false, false, false]), "000");
    assert_eq!(domain_id(&[true, true, true, false]), "111");
    assert_eq!(domain_id(&[false, true]), "01");
    assert_eq!(domain_id(&[]), "");
}

#[test]
fn merging_the_same_record_twice_changes_nothing() {
    let mut once = AnnotationFetcher::new();
    once.merge(record("AE-AETERM", 2, &["AETERM = X", "AECAT = Y"]));
    let mut twice = AnnotationFetcher::new();
    twice.merge(record("AE-AETERM", 2, &["AETERM = X", "AECAT = Y"]));
    twice.merge(record("AE-AETERM", 2, &["AETERM = X", "AECAT = Y"]));
    assert_eq!(once.annotations(), twice.annotations());
    assert_eq!(history(&twice.annotations()[0]), vec![(2, texts(&["AETERM = X", "AECAT = Y"]))]);

    let mut later = AnnotationFetcher::new();
    later.merge(record("AE-AETERM", 2, &["a"]));
    later.merge(record("AE-AETERM", 3, &["b", "b"]));
    let first = later.annotations();
    later.merge(record("AE-AETERM", 3, &["b", "b"]));
    assert_eq!(later.annotations(), first);
    assert_eq!(history(&first[0]), vec![(2, texts(&["a"])), (3, texts(&["b"]))]);
}

#[test]
fn pages_keep_their_order_and_clauses_are_not_repeated() {
    let mut fetcher = AnnotationFetcher::new();
    fetcher.merge(record("VS-VSORRES", 1, &["VSTESTCD = TEMP"]));
    fetcher.merge(record("VS-VSORRES", 3, &["VSTESTCD = TEMP", "VSTESTCD = PULSE"]));
    fetcher.merge(record("VS-VSORRES", 3, &["VSTESTCD = PULSE", "VSTESTCD = SYSBP", "VSTESTCD = TEMP"]));
    let out = fetcher.annotations();
    assert_eq!(out.len(), 1);
    assert_eq!(
        history(&out[0]),
        vec![
            (1, texts(&["VSTESTCD = TEMP"])),
            (3, texts(&["VSTESTCD = TEMP", "VSTESTCD = PULSE", "VSTESTCD = SYSBP"])),
        ]
    );
}

#[test]
fn a_new_page_gets_a_new_entry_even_for_known_clauses() {
    let mut fetcher = AnnotationFetcher::new();
    fetcher.merge(record("VS-VSORRES", 2, &["a"]));
    fetcher.merge(record("VS-VSORRES", 5, &["a"]));
    fetcher.merge(record("VS-VSORRES", 9, &[]));
    let out = fetcher.annotations();
    assert_eq!(history(&out[0]), vec![(2, texts(&["a"])), (5, texts(&["a"])), (9, vec![])]);
}

#[test]
fn a_record_without_identity_is_left_out() {
    let mut fetcher = AnnotationFetcher::new();
    fetcher.merge(record("", 2, &["a"]));
    assert!(fetcher.annotations().is_empty());
}

#[test]
fn a_first_record_holds_each_clause_once() {
    let mut fetcher = AnnotationFetcher::new();
    fetcher.merge(record("AE-AETERM", 2, &["a", "a"]));
    assert_eq!(history(&fetcher.annotations()[0]), vec![(2, texts(&["a"]))]);
    let mut other = record("AE-AETERM", 2, &["b", "a", "b"]);
    other.domain = "XX".to_string();
    other.raw = "other".to_string();
    fetcher.merge(other);
    let out = fetcher.annotations();
    assert_eq!(out[0].domain, "AE");
    assert_eq!(out[0].raw, "AE-AETERM");
    assert_eq!(history(&out[0]), vec![(2, texts(&["a", "b"]))]);
    fetcher.merge(record("AE-AETERM", 3, &["c", "a", "c", "a"]));
    assert_eq!(
        history(&fetcher.annotations()[0]),
        vec![(2, texts(&["a", "b"])), (3, texts(&["c", "a"]))]
    );
}

#[test]
fn no_clause_stands_twice_after_a_document_is_read() {
    let red: &[bool] = &[true, false, false];
    let pages = vec![
        vec![],
        vec![
            note(Some(red), Some("DS (Disposition)")),
            note(Some(red), Some("DSTERM = X when DSTERM = X")),
            note(Some(red), Some("DSTERM = X when DSTERM = X / DSDECOD = Y")),
        ],
        vec![
            note(Some(red), Some("DS (Disposition)")),
            note(Some(red), Some("DSTERM = X when DSTERM = X")),
        ],
    ];
    let out = fetch(&pages);
    assert_eq!(out.len(), 1);
    assert_eq!(
        history(&out[0]),
        vec![(2, texts(&["DSTERM = X", "DSTERM = X / DSDECOD"])), (3, texts(&["DSTERM = X"]))]
    );
    for record in out.iter() {
        for entry in record.page_description.iter() {
            let mut clauses = entry.description.clone();
            clauses.sort();
            clauses.dedup();
            assert_eq!(clauses.len(), entry.description.len());
        }
    }
}

#[test]
fn each_clause_once() {
    assert_eq!(once_each(&texts(&["a", "b", "a", "c", "b"])), texts(&["a", "b", "c"]));
    assert_eq!(once_each(&texts(&["a", "b"])), texts(&["a", "b"]));
    assert_eq!(once_each(&texts(&[])), texts(&[]));
    assert_eq!(once_each(&texts(&["", ""])), texts(&[""]));
}

#[test]
fn clauses_are_added_once() {
    let mut entry = PageDescription { page: 4, description: texts(&["a", "b"]) };
    add_clauses(&mut entry, &texts(&["b", "c", "c", "a", "d"]));
    assert_eq!(entry.page, 4);
    assert_eq!(entry.description, texts(&["a", "b", "c", "d"]));
    assert!(entry.has_description_in_same_page("c"));
    assert!(!entry.has_description_in_same_page("e"));
    assert!(!entry.has_description_in_same_page(""));
}

#[test]
fn the_export_is_sorted_by_identity() {
    let mut fetcher = AnnotationFetcher::new();
    for id in ["VS-VSORRES", "AE-AETERM", "SUPPAE-AESI", "AE-AEDECOD", "AE-AE", "DM-é", "DM-z", "DM-Z"] {
        fetcher.merge(record(id, 2, &[]));
    }
    fetcher.merge(record("AE-AETERM", 3, &[]));
    let ids: Vec<String> = fetcher.annotations().iter().map(|a| a.id.clone()).collect();
    assert_eq!(
        ids,
        texts(&["AE-AE", "AE-AEDECOD", "AE-AETERM", "DM-Z", "DM-z", "DM-é", "SUPPAE-AESI", "VS-VSORRES"])
    );
    let mut sorted = ids.clone();
    sorted.sort();
    sorted.dedup();
    assert_eq!(ids, sorted);
}

#[test]
fn a_document_is_read_page_by_page() {
    let red: &[bool] = &[true, false, false];
    let blue: &[bool] = &[false, false, true];
    let pages = vec![
        vec![note(Some(red), Some("CV (Cover)")), note(Some(red), Some("CVTERM"))],
        vec![
            note(Some(red), Some("AE (Adverse Events)")),
            note(Some(red), Some("AETERM")),
            note(Some(blue), Some("CMTRT")),
            note(Some(blue), Some("CM = Concomitant Medications")),
            note(Some(red), Some("AESI in SUPPAE")),
            note(None, Some("AESER = Y")),
            note(Some(red), None),
            note(Some(red), Some("See CRF Page")),
        ],
        vec![
            note(Some(blue), Some("  AETERM = HEADACHE\r\nwhen AECAT = X  ")),
            note(Some(blue), Some("AE = Adverse Events")),
            note(None, Some("LOSTVAR")),
        ],
        vec![note(Some(red), Some("ORPHAN1"))],
    ];
    let out = fetch(&pages);
    let ids: Vec<String> = out.iter().map(|a| a.id.clone()).collect();
    assert_eq!(ids, texts(&["AE-AESER", "AE-AETERM", "AE-LOSTVAR", "CM-CMTRT", "SUPPAE-AESI"]));
    assert_eq!(history(&out[0]), vec![(2, texts(&["AESER = Y"]))]);
    assert_eq!(history(&out[1]), vec![(2, vec![]), (3, texts(&["AETERM = HEADACHE", "AECAT = X"]))]);
    assert_eq!(out[1].raw, "AETERM");
    assert_eq!(history(&out[2]), vec![(3, vec![])]);
    assert_eq!(out[3].domain, "CM");
    assert_eq!(out[3].domain_id, "001");
    assert_eq!(history(&out[3]), vec![(2, vec![])]);
    assert_eq!(out[4].domain, "SUPPAE");
    assert!(out[4].supp);
}

#[test]
fn the_first_declaration_under_a_marker_stands() {
    let mut fetcher = AnnotationFetcher::new();
    fetcher.begin_page(2);
    fetcher.set_marker(&[true, true, false]);
    assert_eq!(fetcher.current_domain(), None);
    fetcher.note_declaration("nothing declared");
    assert_eq!(fetcher.current_domain(), None);
    fetcher.note_declaration("AE (Adverse Events)");
    assert_eq!(fetcher.current_domain(), Some("AE".to_string()));
    fetcher.note_declaration("CM (Concomitant Medications)");
    assert_eq!(fetcher.current_domain(), Some("AE".to_string()));
    fetcher.set_marker(&[false, true, false]);
    assert_eq!(fetcher.current_domain(), None);
    fetcher.note_declaration("RELREC = Related Records");
    assert_eq!(fetcher.current_domain(), Some("RELREC".to_string()));
    assert_eq!(fetcher.domain_of("110"), Some("AE".to_string()));
    fetcher.begin_page(3);
    assert_eq!(fetcher.domain_of("110"), None);
    assert_eq!(fetcher.domain_of("010"), None);
}

#[test]
fn contents_are_decoded_and_unbroken() {
    let mut fetcher = AnnotationFetcher::new();
    fetcher.begin_page(2);
    fetcher.set_marker(&[true, true, true]);
    assert!(fetcher.object_to_annotations("DS (Disposition)".as_bytes()).is_empty());
    let out = fetcher.object_to_annotations(b"DSSTDTC when DSTERM/DSDECOD=\xD6\xAA\xC7\xE9\xCD\xAC\xD2\xE2\xC7\xA9\xCA\xF0");
    assert_eq!(out.len(), 1);
    assert_eq!(out[0].id, "DS-DSSTDTC");
    assert_eq!(out[0].raw, "DSSTDTC when DSTERM/DSDECOD=知情同意签署");
    assert_eq!(
        out[0].page_description[0].description,
        texts(&["DSTERM = 知情同意签署", "DSDECOD = 知情同意签署"])
    );
    let broken = fetcher.object_to_annotations(b"\n DSTERM =\rA\nB \r\n");
    assert_eq!(broken[0].raw, "DSTERM = A B");
    assert_eq!(broken[0].page_description[0].description, texts(&["DSTERM = A B"]));
    assert!(fetcher.object_to_annotations(b"").is_empty());
}

#[test]
fn a_record_is_identified_once_its_dataset_is_declared() {
    let mut fetcher = AnnotationFetcher::new();
    fetcher.begin_page(2);
    fetcher.set_marker(&[true, false, false]);
    let early = fetcher.text_to_annotations("AETERM");
    let supp = fetcher.text_to_annotations("AESI in SUPPAE");
    assert_eq!(early[0].id, "");
    assert_eq!(fetcher.identify_record(&early[0]), early[0]);
    fetcher.note_declaration("AE (Adverse Events)");
    let named = fetcher.identify_record(&early[0]);
    assert_eq!(named.id, "AE-AETERM");
    assert_eq!(named.domain, "AE");
    assert_eq!(named.variable, "AETERM");
    let named = fetcher.identify_record(&supp[0]);
    assert_eq!(named.id, "SUPPAE-AESI");
    assert_eq!(named.domain, "SUPPAE");
    let mut known = early[0].clone();
    known.id = "XX-AETERM".to_string();
    assert_eq!(fetcher.identify_record(&known), known);
}

#[test]
fn texts_are_unbroken() {
    assert_eq!(normalize("  a\nb\rc \n"), "a b c");
    assert_eq!(normalize("a\r\nb"), "a  b");
    assert_eq!(normalize(""), "");
    assert_eq!(normalize("\n"), "");
}

#[test]
fn contents_are_read_as_gb18030() {
    assert_eq!(decode_gb18030(b"AETERM"), "AETERM");
    assert_eq!(decode_gb18030(b"\xC8\xCB\xBF\xDA"), "人口");
    assert_eq!(decode_gb18030(b""), "");
    assert_eq!(decode_gb18030(b"\xFF"), "\u{fffd}");
}

#[test]
fn a_declared_dataset_is_taken_once() {
    let mut fetcher = AnnotationFetcher::new();
    fetcher.begin_page(2);
    fetcher.set_marker(&[true]);
    fetcher.record_declaration(None);
    assert_eq!(fetcher.current_domain(), None);
    fetcher.record_declaration(Some("AE".to_string()));
    assert_eq!(fetcher.current_domain(), Some("AE".to_string()));
    fetcher.record_declaration(Some("CM".to_string()));
    assert_eq!(fetcher.current_domain(), Some("AE".to_string()));
    assert_eq!(fetcher.domain_of("1"), Some("AE".to_string()));
}

#[test]
fn pages_are_read_one_by_one() {
    let red: &[bool] = &[true, false, false];
    let mut fetcher = AnnotationFetcher::new();
    fetcher.fetch_page(2, &vec![note(Some(red), Some("AETERM")), note(None, Some("AE (Adverse Events)"))]);
    fetcher.fetch_page(5, &vec![note(Some(red), Some("AE=x")), note(None, Some("AETERM = Y"))]);
    fetcher.fetch_page(5, &vec![note(Some(red), Some("AE=x")), note(None, Some("AETERM = Z"))]);
    let out = fetcher.annotations();
    assert_eq!(out.len(), 1);
    assert_eq!(
        history(&out[0]),
        vec![(2, vec![]), (5, texts(&["AETERM = Y", "AETERM = Z"]))]
    );
}
