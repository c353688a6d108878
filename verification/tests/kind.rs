use acrf::annotation::kind::{annotation_kind, kind_from_shapes, AnnotationKind};

const MAIN_1: &str = "AESTDTC";
const MAIN_2: &str = "LBTEST = Erythrocytes";
const MAIN_3: &str = "VSORRES when VSTESTCD = TEMP";
const MAIN_4: &str = "MISTAT = NOT DONE when MITESTCD = MIALL";
const MAIN_5: &str = "TRORRES / TRORRESU when TRTESTCD = SUMDIAM";
const MAIN_6: &str = "Datepart of ECSTDTC";
const MAIN_7: &str = "Timepart of ECSTDTC";
const SUPP_1: &str = "AESI in SUPPAE";
const SUPP_2: &str = "PECLSIG=N in SUPPPE";
const SUPP_3: &str = "If Normal then XONRIND = NORMAL in SUPPXO";
const SUPP_4: &str = "DDORRES in SUPPDD when DDTESTCD = PRCDTH";
const OTHER_1: &str = "[NOT SUBMITTED]";
const OTHER_2: &str = "DM = 人口学特征";
const OTHER_3: &str = "RELREC (Related Records)";
const OTHER_4: &str = "See CRF Page";
const OTHER_5: &str = "Note:";
const OTHER_6: &str = "Linked to related AE record via RELREC";

#[test]
fn annotation_kind_test() {
    assert_eq!(annotation_kind(MAIN_1), AnnotationKind::Main);
    assert_eq!(annotation_kind(MAIN_2), AnnotationKind::Main);
    assert_eq!(annotation_kind(MAIN_3), AnnotationKind::Main);
    assert_eq!(annotation_kind(MAIN_4), AnnotationKind::Main);
    assert_eq!(annotation_kind(MAIN_5), AnnotationKind::Main);
    assert_eq!(annotation_kind(MAIN_6), AnnotationKind::Main);
    assert_eq!(annotation_kind(MAIN_7), AnnotationKind::Main);
    assert_eq!(annotation_kind(SUPP_1), AnnotationKind::Supp);
    assert_eq!(annotation_kind(SUPP_2), AnnotationKind::Supp);
    assert_eq!(annotation_kind(SUPP_3), AnnotationKind::Supp);
    assert_eq!(annotation_kind(SUPP_4), AnnotationKind::Supp);
    assert_eq!(annotation_kind(OTHER_1), AnnotationKind::Other);
    assert_eq!(annotation_kind(OTHER_2), AnnotationKind::Other);
    assert_eq!(annotation_kind(OTHER_3), AnnotationKind::Other);
    assert_eq!(annotation_kind(OTHER_3), AnnotationKind::Other);
    assert_eq!(annotation_kind(OTHER_4), AnnotationKind::Other);
    assert_eq!(annotation_kind(OTHER_5), AnnotationKind::Other);
    assert_eq!(annotation_kind(OTHER_6), AnnotationKind::Other);
}

#[test]
fn kind_is_decided_by_the_three_shapes() {
    assert_eq!(kind_from_shapes(false, false, false), AnnotationKind::Other);
    assert_eq!(kind_from_shapes(false, false, true), AnnotationKind::Other);
    assert_eq!(kind_from_shapes(false, true, false), AnnotationKind::Other);
    assert_eq!(kind_from_shapes(false, true, true), AnnotationKind::Other);
    assert_eq!(kind_from_shapes(true, false, false), AnnotationKind::Main);
    assert_eq!(kind_from_shapes(true, false, true), AnnotationKind::Supp);
    assert_eq!(kind_from_shapes(true, true, false), AnnotationKind::Other);
    assert_eq!(kind_from_shapes(true, true, true), AnnotationKind::Other);
}

#[test]
fn a_statement_needs_four_capitals_or_digits() {
    assert_eq!(annotation_kind("ABC"), AnnotationKind::Other);
    assert_eq!(annotation_kind("ABCD"), AnnotationKind::Main);
    assert_eq!(annotation_kind("AB12"), AnnotationKind::Main);
    assert_eq!(annotation_kind("abcd"), AnnotationKind::Other);
    assert_eq!(annotation_kind(""), AnnotationKind::Other);
    assert_eq!(annotation_kind("If x then ABCD"), AnnotationKind::Main);
    assert_eq!(annotation_kind("SUPPAE"), AnnotationKind::Supp);
    assert_eq!(annotation_kind("AESI in SUPPae"), AnnotationKind::Main);
}

#[test]
fn a_declaration_is_no_statement() {
    assert_eq!(annotation_kind("ABCDEF (Some Dataset)"), AnnotationKind::Other);
    assert_eq!(annotation_kind("ABCDEF(Some Dataset)"), AnnotationKind::Other);
    assert_eq!(annotation_kind("SUPPAE (Supplemental)"), AnnotationKind::Other);
    assert_eq!(annotation_kind("ABCDEFG (too long for a code)"), AnnotationKind::Main);
}
