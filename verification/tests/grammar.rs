use acrf::annotation::content::Annotation;
use acrf::annotation::fetcher::AnnotationFetcher;
use acrf::annotation::grammar::{
    contains_chinese_char, identify, is_implausible, main_records, main_records_of, make_record,
    name_of, read_qualifier, read_segment, read_segments, settle, strip_condition, strip_name,
    supp_records, supp_records_of, Segment,
};

fn variables(records: &[Annotation]) -> Vec<String> {
    records.iter().map(|r| r.variable.clone()).collect()
}

fn clauses(record: &Annotation) -> Vec<String> {
    record.page_description[0].description.clone()
}

fn texts(list: &[&str]) -> Vec<String> {
    list.iter().map(|s| s.to_string()).collect()
}

fn segment(name: &str, value: Option<&str>) -> Segment {
    Segment { name: name.to_string(), value: value.map(|v| v.to_string()) }
}

fn pairs(list: &[Segment]) -> Vec<(String, Option<String>)> {
    list.iter().map(|s| (s.name.clone(), s.value.clone())).collect()
}

#[test]
fn splitting_on_slashes_with_a_qualifying_clause() {
    let out = main_records("TRORRES / TRORRESU / TRORRESX when TRTESTCD = SUMDIAM", 7, "TR", "100");
    assert_eq!(variables(&out), texts(&["TRORRES", "TRORRESU", "TRORRESX", "TRTESTCD"]));
    for record in out.iter() {
        assert_eq!(clauses(record), texts(&["TRTESTCD = SUMDIAM"]));
        assert_eq!(record.page_description.len(), 1);
        assert_eq!(record.page_description[0].page, 7);
        assert_eq!(record.domain, "TR");
        assert_eq!(record.domain_id, "100");
        assert!(!record.supp);
        assert_eq!(record.raw, "TRORRES / TRORRESU / TRORRESX when TRTESTCD = SUMDIAM");
    }
    assert_eq!(out[0].id, "TR-TRORRES");
    assert_eq!(out[1].id, "TR-TRORRESU");
    assert_eq!(out[2].id, "TR-TRORRESX");
    assert_eq!(out[3].id, "TR-TRTESTCD");
}

#[test]
fn a_condition_is_stripped_and_a_value_is_shared() {
    let out = main_records("If Abnormal then LBNRIND1 / LBNRIND2 = ABNORMAL", 3, "LB", "010");
    assert_eq!(variables(&out), texts(&["LBNRIND1", "LBNRIND2"]));
    assert_eq!(clauses(&out[0]), texts(&["LBNRIND1 = ABNORMAL"]));
    assert_eq!(clauses(&out[1]), texts(&["LBNRIND2 = ABNORMAL"]));
    assert_eq!(out[0].id, "LB-LBNRIND1");
    assert_eq!(out[1].id, "LB-LBNRIND2");
}

#[test]
fn date_part_and_time_part_name_the_same_variable() {
    let date = main_records("Datepart of ECSTDTC", 4, "EC", "001");
    let time = main_records("Timepart of ECSTDTC", 4, "EC", "001");
    assert_eq!(date.len(), 1);
    assert_eq!(time.len(), 1);
    assert_eq!(date[0].variable, "ECSTDTC");
    assert_eq!(time[0].variable, "ECSTDTC");
    assert_eq!(date[0].id, "EC-ECSTDTC");
    assert_eq!(time[0].id, date[0].id);
    assert_eq!(date[0].domain, time[0].domain);
    assert!(clauses(&date[0]).is_empty());
    assert!(clauses(&time[0]).is_empty());
}

#[test]
fn a_supplemental_statement_goes_to_the_supplemental_dataset() {
    let out = supp_records("AESI in SUPPAE", 5, "AE", "110");
    assert_eq!(out.len(), 1);
    assert_eq!(out[0].variable, "AESI");
    assert_eq!(out[0].domain, "SUPPAE");
    assert_eq!(out[0].id, "SUPPAE-AESI");
    assert!(out[0].supp);
    assert!(clauses(&out[0]).is_empty());
    assert_eq!(out[0].page_description[0].page, 5);
    assert_eq!(out[0].raw, "AESI in SUPPAE");
}

#[test]
fn a_test_code_of_the_qualifying_clause_is_a_record_of_its_own() {
    let out = main_records("VSORRES when VSTESTCD = TEMP", 9, "VS", "000");
    assert_eq!(variables(&out), texts(&["VSORRES", "VSTESTCD"]));
    assert_eq!(clauses(&out[0]), texts(&["VSTESTCD = TEMP"]));
    assert_eq!(clauses(&out[1]), texts(&["VSTESTCD = TEMP"]));
    assert_ne!(out[0].id, out[1].id);
    assert_eq!(out[1].id, "VS-VSTESTCD");

    let plain = main_records("DSSTDTC when DSTERM/DSDECOD=X", 9, "DS", "000");
    assert_eq!(variables(&plain), texts(&["DSSTDTC"]));
    assert_eq!(clauses(&plain[0]), texts(&["DSTERM = X", "DSDECOD = X"]));
}

#[test]
fn a_bare_name_has_no_clause() {
    let out = main_records("AESTDTC", 2, "AE", "110");
    assert_eq!(out.len(), 1);
    assert_eq!(out[0].variable, "AESTDTC");
    assert_eq!(out[0].id, "AE-AESTDTC");
    assert!(clauses(&out[0]).is_empty());
}

#[test]
fn a_name_with_a_value_has_one_clause() {
    let out = main_records("LBTEST = Erythrocytes", 2, "LB", "110");
    assert_eq!(out.len(), 1);
    assert_eq!(clauses(&out[0]), texts(&["LBTEST = Erythrocytes"]));
    let both = main_records("MISTAT = NOT DONE when MITESTCD = MIALL", 2, "MI", "110");
    assert_eq!(variables(&both), texts(&["MISTAT", "MITESTCD"]));
    assert_eq!(clauses(&both[0]), texts(&["MISTAT = NOT DONE", "MITESTCD = MIALL"]));
    assert_eq!(clauses(&both[1]), texts(&["MITESTCD = MIALL"]));
}

#[test]
fn two_names_before_one_value() {
    let out = main_records(
        "DSTERM/DSDECOD  = ENTERED INTO TRIAL when DSCAT = PROTOCOL MILESTONE",
        2,
        "DS",
        "110",
    );
    assert_eq!(variables(&out), texts(&["DSTERM", "DSDECOD"]));
    assert_eq!(
        clauses(&out[0]),
        texts(&["DSTERM = ENTERED INTO TRIAL", "DSCAT = PROTOCOL MILESTONE"])
    );
    assert_eq!(
        clauses(&out[1]),
        texts(&["DSDECOD = ENTERED INTO TRIAL", "DSCAT = PROTOCOL MILESTONE"])
    );
}

#[test]
fn a_free_qualifying_clause_is_kept_as_it_stands() {
    let out = main_records("PETESTCD = PEALL / PESTAT = NOT DONE when No", 2, "PE", "110");
    assert_eq!(variables(&out), texts(&["PETESTCD", "PESTAT"]));
    assert_eq!(clauses(&out[0]), texts(&["PETESTCD = PEALL", "No"]));
    assert_eq!(clauses(&out[1]), texts(&["PESTAT = NOT DONE", "No"]));
}

#[test]
fn only_the_first_when_cuts_the_statement() {
    let out = main_records("AETERM when told when asked", 2, "AE", "110");
    assert_eq!(out.len(), 1);
    assert_eq!(clauses(&out[0]), texts(&["told when asked"]));
}

#[test]
fn an_implausible_name_continues_the_value_before_it() {
    let out = main_records("IETEST = INCLUSION / EXCLUSION CRITERIA", 2, "IE", "110");
    assert_eq!(variables(&out), texts(&["IETEST"]));
    assert_eq!(clauses(&out[0]), texts(&["IETEST = INCLUSION / EXCLUSION CRITERIA"]));

    let foreign = main_records("DSTERM = 知情 / 同意", 2, "DS", "110");
    assert_eq!(variables(&foreign), texts(&["DSTERM"]));
    assert_eq!(clauses(&foreign[0]), texts(&["DSTERM = 知情 / 同意"]));
}

#[test]
fn an_implausible_name_stays_where_nothing_stands_before_it() {
    let out = main_records("AETERM / VERYLONGNAME", 2, "AE", "110");
    assert_eq!(variables(&out), texts(&["AETERM", "VERYLONGNAME"]));
    assert!(clauses(&out[0]).is_empty());
    assert!(clauses(&out[1]).is_empty());
}

#[test]
fn a_borrowed_value_is_continued_too() {
    let out = main_records("AETERM / VERYLONGNAME = X", 2, "AE", "110");
    assert_eq!(variables(&out), texts(&["AETERM"]));
    assert_eq!(clauses(&out[0]), texts(&["AETERM = X / VERYLONGNAME"]));
}

#[test]
fn an_empty_name_gives_no_record() {
    let out = main_records("AETERM / ", 2, "AE", "110");
    assert_eq!(variables(&out), texts(&["AETERM"]));
    let none = main_records("", 2, "AE", "110");
    assert!(none.is_empty());
    let only_value = main_records("= 5", 2, "AE", "110");
    assert!(only_value.is_empty());
}

#[test]
fn without_a_dataset_a_record_has_no_identity() {
    let out = main_records("VSORRES when VSTESTCD = TEMP", 9, "", "000");
    assert_eq!(out.len(), 2);
    assert_eq!(out[0].id, "");
    assert_eq!(out[1].id, "");
    assert_eq!(out[0].domain, "");
    let supp = supp_records("AESI in SUPPAE", 9, "", "000");
    assert_eq!(supp.len(), 1);
    assert_eq!(supp[0].id, "");
    assert_eq!(supp[0].domain, "");
    assert!(supp[0].supp);
}

#[test]
fn identity_is_dataset_dash_variable() {
    assert_eq!(identify("AE", "AETERM"), "AE-AETERM");
    assert_eq!(identify(" AE ", "AETERM"), "AE-AETERM");
    assert_eq!(identify(" AE ", " AETERM "), "AE- AETERM ");
    assert_eq!(identify("", "AETERM"), "");
    assert_eq!(identify("AE", ""), "AE-");
}

#[test]
fn supplemental_statements_with_values_and_clauses() {
    let out = supp_records("PECLSIG=N in SUPPPE", 6, "PE", "001");
    assert_eq!(variables(&out), texts(&["PECLSIG"]));
    assert_eq!(clauses(&out[0]), texts(&["PECLSIG = N"]));
    assert_eq!(out[0].id, "SUPPPE-PECLSIG");

    let cond = supp_records("If Normal then LBNRIND1 = NORMAL in SUPPLB", 6, "LB", "001");
    assert_eq!(variables(&cond), texts(&["LBNRIND1"]));
    assert_eq!(clauses(&cond[0]), texts(&["LBNRIND1 = NORMAL"]));

    let when = supp_records("DDORRES in SUPPDD when DDTESTCD = PRCDTH", 6, "DD", "001");
    assert_eq!(variables(&when), texts(&["DDORRES"]));
    assert_eq!(clauses(&when[0]), texts(&["DDTESTCD = PRCDTH"]));

    let list = supp_records("TRNEREA / TRNEREB in SUPPTR when TRTESTCD = LDIAM/LPERP", 6, "TR", "001");
    assert_eq!(variables(&list), texts(&["TRNEREA", "TRNEREB"]));
    assert_eq!(clauses(&list[0]), texts(&["TRTESTCD = LDIAM/LPERP"]));
    assert_eq!(clauses(&list[1]), texts(&["TRTESTCD = LDIAM/LPERP"]));
    assert_eq!(list[1].id, "SUPPTR-TRNEREB");
}

#[test]
fn a_supplemental_statement_needs_its_dataset() {
    assert!(supp_records("SUPPAE", 6, "AE", "001").is_empty());
    assert!(supp_records("AESI inSUPPAE", 6, "AE", "001").is_empty());
}

#[test]
fn the_dataset_of_a_supplemental_record_is_that_of_the_page() {
    let out = supp_records("AESI in SUPPXX", 6, "AE", "001");
    assert_eq!(out[0].domain, "SUPPAE");
}

#[test]
fn names_are_stripped() {
    assert_eq!(strip_condition("If Normal then LBNRIND1"), "LBNRIND1");
    assert_eq!(strip_condition("LBNRIND1"), "LBNRIND1");
    assert_eq!(strip_condition("Not If Normal then LBNRIND1"), "Not If Normal then LBNRIND1");
    assert_eq!(strip_name("If Normal then   LBNRIND1"), "LBNRIND1");
    assert_eq!(strip_name("Datepart of ECSTDTC"), "ECSTDTC");
    assert_eq!(strip_name("Timepart of ECSTDTC"), "ECSTDTC");
    assert_eq!(strip_name("Datepart of Timepart of ECSTDTC"), "ECSTDTC");
    assert_eq!(strip_name("If late then Datepart of ECSTDTC"), "ECSTDTC");
    assert_eq!(strip_name("ECSTDTC"), "ECSTDTC");
    assert_eq!(strip_name(""), "");
}

#[test]
fn a_name_is_implausible_when_long_or_foreign() {
    assert!(!is_implausible(""));
    assert!(!is_implausible("ABCDEFGH"));
    assert!(is_implausible("ABCDEFGHI"));
    assert!(is_implausible("知情"));
    assert!(is_implausible("É"));
    assert!(!is_implausible("A B C"));
}

#[test]
fn segments_are_read_between_slashes() {
    let one = read_segment(" LBTEST = Erythrocytes ");
    assert_eq!(one.name, "LBTEST");
    assert_eq!(one.value, Some("Erythrocytes".to_string()));
    let two = read_segment("A = B = C");
    assert_eq!(two.name, "A");
    assert_eq!(two.value, Some("B".to_string()));
    let bare = read_segment("AETERM");
    assert_eq!(bare.value, None);
    let empty = read_segment("AETERM =");
    assert_eq!(empty.value, Some(String::new()));
    let all = read_segments("A = 1 / B / C = 3");
    assert_eq!(
        pairs(&all),
        vec![
            ("A".to_string(), Some("1".to_string())),
            ("B".to_string(), None),
            ("C".to_string(), Some("3".to_string())),
        ]
    );
}

#[test]
fn settling_segments() {
    let out = settle(&vec![segment("A", None), segment("B", None), segment("C", Some("x"))]);
    assert_eq!(
        pairs(&out),
        vec![
            ("A".to_string(), None),
            ("B".to_string(), Some("x".to_string())),
            ("C".to_string(), Some("x".to_string())),
        ]
    );
    let chain = settle(&vec![
        segment("A", Some("x")),
        segment("LONG LONG ONE", Some("y")),
        segment("LONG LONG TWO", None),
        segment("B", None),
    ]);
    assert_eq!(
        pairs(&chain),
        vec![("A".to_string(), Some("x / LONG LONG ONE".to_string())), ("B".to_string(), None)]
    );
    assert!(settle(&vec![]).is_empty());
    assert!(settle(&vec![segment("", Some("x"))]).is_empty());
}

#[test]
fn qualifying_clauses() {
    let none = read_qualifier(None);
    assert!(none.names.is_empty());
    assert!(none.clauses.is_empty());
    let free = read_qualifier(Some("No"));
    assert!(free.names.is_empty());
    assert_eq!(free.clauses, texts(&["No"]));
    let pair = read_qualifier(Some("A/B = x = y"));
    assert_eq!(pair.names, texts(&["A", "B"]));
    assert_eq!(pair.value, "x");
    assert_eq!(pair.clauses, texts(&["A = x", "B = x"]));
}

#[test]
fn the_fetcher_reads_statements_under_its_page_and_marker() {
    let mut fetcher = AnnotationFetcher::new();
    fetcher.begin_page(12);
    fetcher.set_marker(&[true, false, true]);
    fetcher.note_declaration("EC (Exposure)");
    let out = fetcher.main_annotation("Datepart of ECSTDTC");
    assert_eq!(out.len(), 1);
    assert_eq!(out[0].id, "EC-ECSTDTC");
    assert_eq!(out[0].domain_id, "101");
    assert_eq!(out[0].page_description[0].page, 12);
    let supp = fetcher.supp_annotation("ECSI in SUPPEC");
    assert_eq!(supp[0].id, "SUPPEC-ECSI");
    assert_eq!(supp[0].domain, "SUPPEC");
}

#[test]
fn a_name_without_its_part_prefix() {
    assert_eq!(name_of("Datepart of ECSTDTC"), "ECSTDTC");
    assert_eq!(name_of("Timepart of ECSTDTC"), "ECSTDTC");
    assert_eq!(name_of("  ECSTDTC "), "ECSTDTC");
    assert_eq!(name_of("Timepart of Datepart of ECSTDTC"), "Datepart of ECSTDTC");
    assert_eq!(name_of("The Datepart of ECSTDTC"), "The Datepart of ECSTDTC");
    assert_eq!(name_of("Datepart of "), "");
    assert_eq!(name_of("If Normal then X"), "If Normal then X");
}

#[test]
fn characters_outside_the_seven_bit_range() {
    assert!(contains_chinese_char("知情同意"));
    assert!(contains_chinese_char("AE知"));
    assert!(!contains_chinese_char("AETERM = X"));
    assert!(!contains_chinese_char(""));
}

#[test]
fn records_from_segments() {
    let segs = vec![segment("A", None), segment("LONG LONG ONE", None), segment("B", Some("x"))];
    let out = main_records_of(&segs, Some("B/CTESTCD = y"), "raw text", 4, "AE", "010");
    assert_eq!(variables(&out), texts(&["A", "LONG LONG ONE", "B", "CTESTCD"]));
    assert!(clauses(&out[0]) == texts(&["B = y", "CTESTCD = y"]));
    assert_eq!(clauses(&out[1]), texts(&["LONG LONG ONE = x", "B = y", "CTESTCD = y"]));
    assert_eq!(clauses(&out[2]), texts(&["B = x", "B = y", "CTESTCD = y"]));
    assert_eq!(clauses(&out[3]), texts(&["CTESTCD = y"]));
    assert_eq!(out[1].id, "AE-LONG LONG ONE");
    assert_eq!(out[3].raw, "raw text");
    let none = main_records_of(&vec![], Some("XTESTCD = y"), "raw", 4, "AE", "010");
    assert_eq!(variables(&none), texts(&["XTESTCD"]));
}

#[test]
fn supplemental_records_from_a_list_of_names() {
    let out = supp_records_of(" A / B/C ", Some(" v "), Some("told"), "raw", 3, "AE", "111");
    assert_eq!(variables(&out), texts(&["A", "B", "C"]));
    assert_eq!(clauses(&out[0]), texts(&["A = v", "told"]));
    assert_eq!(clauses(&out[2]), texts(&["C = v", "told"]));
    assert_eq!(out[1].id, "SUPPAE-B");
    assert_eq!(out[1].domain_id, "111");
    let bare = supp_records_of("A", None, None, "raw", 3, "", "111");
    assert_eq!(bare.len(), 1);
    assert!(clauses(&bare[0]).is_empty());
    assert_eq!(bare[0].id, "");
}

#[test]
fn a_record_is_made_of_its_parts() {
    let out = make_record("AE", "101", "AETERM", 12, texts(&["a", "b"]), true, "raw");
    assert_eq!(out.id, "AE-AETERM");
    assert_eq!(out.domain, "AE");
    assert_eq!(out.domain_id, "101");
    assert_eq!(out.variable, "AETERM");
    assert_eq!(out.page_description.len(), 1);
    assert_eq!(out.page_description[0].page, 12);
    assert_eq!(out.page_description[0].description, texts(&["a", "b"]));
    assert!(out.supp);
    assert_eq!(out.raw, "raw");
    assert_eq!(out.duplicate(), out);
}

/// Settles segments one after the other, changing them in place.
fn settle_in_place(segs: &[Segment]) -> Vec<(String, Option<String>)> {
    let mut list: Vec<(Option<String>, Option<String>)> =
        segs.iter().map(|s| (Some(s.name.clone()), s.value.clone())).collect();
    for i in 0..list.len() {
        let name = list[i].0.clone().unwrap();
        if i > 0 && is_implausible(&name) {
            if let Some(value) = list[i - 1].1.clone() {
                list[i - 1].1 = Some(format!("{} / {}", value, name));
                list[i].0 = None;
                continue;
            }
        }
        if list[i].1.is_none() && i + 1 < list.len() {
            if let Some(value) = list[i + 1].1.clone() {
                list[i].1 = Some(value);
            }
        }
    }
    list.into_iter()
        .filter_map(|(name, value)| match name {
            Some(name) if !name.is_empty() => Some((name, value)),
            _ => None,
        })
        .collect()
}

#[test]
fn settling_at_once_is_settling_in_place() {
    let names = ["A", "VERYLONGNAME", "", "知"];
    let values = [None, Some("x"), Some("")];
    let mut choices = Vec::new();
    for name in names {
        for value in values {
            choices.push(segment(name, value));
        }
    }
    let at = |k: usize| Segment { name: choices[k].name.clone(), value: choices[k].value.clone() };
    let n = choices.len();
    for a in 0..n {
        assert_eq!(pairs(&settle(&vec![at(a)])), settle_in_place(&[at(a)]));
        for b in 0..n {
            assert_eq!(pairs(&settle(&vec![at(a), at(b)])), settle_in_place(&[at(a), at(b)]));
            for c in 0..n {
                let three = vec![at(a), at(b), at(c)];
                assert_eq!(pairs(&settle(&three)), settle_in_place(&three));
                for d in 0..n {
                    let four = vec![at(a), at(b), at(c), at(d)];
                    assert_eq!(pairs(&settle(&four)), settle_in_place(&four));
                }
            }
        }
    }
}

#[test]
fn a_record_holds_each_clause_once() {
    let out = main_records("DSTERM = X when DSTERM = X", 2, "DS", "110");
    assert_eq!(variables(&out), texts(&["DSTERM"]));
    assert_eq!(clauses(&out[0]), texts(&["DSTERM = X"]));
    let two = main_records("DSTERM = X when DSTERM/DSDECOD/DSTERM = X", 2, "DS", "110");
    assert_eq!(clauses(&two[0]), texts(&["DSTERM = X", "DSDECOD = X"]));
    let supp = supp_records("AESI in SUPPAE when AESI = Y", 2, "AE", "110");
    assert_eq!(clauses(&supp[0]), texts(&["AESI = Y"]));
    let same = supp_records("AESI = Y in SUPPAE when AESI = Y", 2, "AE", "110");
    assert_eq!(clauses(&same[0]), texts(&["AESI = Y"]));
    let made = make_record("AE", "101", "AETERM", 12, texts(&["a", "b", "a"]), false, "raw");
    assert_eq!(made.page_description[0].description, texts(&["a", "b"]));
}

#[test]
fn the_identity_of_a_record_is_its_dataset_and_its_variable() {
    let out = main_records("LBORRES when LBCAT / LBTESTCD = ALT", 2, " LB ", "110");
    assert_eq!(variables(&out), texts(&["LBORRES", " LBTESTCD"]));
    assert_eq!(clauses(&out[0]), texts(&["LBCAT  = ALT", " LBTESTCD = ALT"]));
    assert_eq!(clauses(&out[1]), texts(&[" LBTESTCD = ALT"]));
    for record in out.iter() {
        assert_eq!(record.id, format!("{}-{}", record.domain.trim(), record.variable));
    }
    assert_eq!(out[1].id, "LB- LBTESTCD");
    let odd = main_records("AETERM when / TESTCD=", 2, "D", "110");
    assert_eq!(odd[1].variable, " TESTCD");
    assert_eq!(odd[1].id, "D- TESTCD");
    let supp = supp_records(" AESI  / AESEV in SUPPAE", 2, "AE", "110");
    for record in supp.iter() {
        assert_eq!(record.id, format!("{}-{}", record.domain.trim(), record.variable));
    }
    let none = main_records("AETERM", 2, "", "110");
    assert_eq!(none[0].id, "");
}
