//! The grammar of data statements.
//!
//! A statement on a dataset reads `NAME = VALUE / NAME = VALUE when NAME = VALUE`,
//! with every part but the first name optional. It is read in these steps.
//!
//! - The statement is cut at its first ` when ` into the primary clause and
//!   the qualifying clause; a later ` when ` belongs to the qualifying clause.
//! - The primary clause is cut at each slash into segments. In a segment the
//!   name stands before the first equal sign and the value between the first
//!   and the second; both are taken without the whitespace around them.
//! - A name loses a leading condition `If <word> then ` and the prefixes
//!   `Datepart of ` and `Timepart of `.
//! - From left to right: a segment whose name is implausible, and whose left
//!   neighbour has a value by then, is the continuation of that value; any
//!   other segment without a value takes the value of its right neighbour.
//! - Each segment that is left and has a name gives one record. Its
//!   identity is its dataset, a dash and its variable; it holds each of its
//!   clauses once.
//! - A qualifying clause with an equal sign names variables, with slashes
//!   between them, and their value; it adds one clause for each of them to
//!   every record. Those of them whose name ends in `TESTCD` give a record of
//!   their own, after the others. A qualifying clause without an equal sign
//!   is added to every record as it stands.
//!
//! A statement on a supplemental dataset reads
//! `NAME / NAME = VALUE in SUPPxx when CLAUSE`. Its dataset is that of its
//! page with `SUPP` before it, and its qualifying clause is added to every
//! record as it stands.

use crate::annotation::content::{
    copy_texts, distinct, lemma_once, once, once_each, views, Annotation, AnnotationView,
    PageDescription, PageDescriptionView,
};
use crate::annotation::pattern::{capture, pattern_group};
use crate::annotation::symbol::{
    lemma_separators, CONDITION, DASH, DATEPART, EQUALS, EQUAL_SIGN, IN, SLASH, SLASH_WITH_BLANK,
    SUPP, TESTCD, TIMEPART, WHEN,
};
use crate::text::{
    char_count, concat3, ends_with, has_infix, has_prefix, has_suffix, is_plain, is_whitespace,
    lemma_split_after, lemma_split_first_after, occurs_at, plain, replace, replaced,
    skip_whitespace, skip_whitespace_back, split, split_at_first, split_first, split_text,
    strip_prefix, trim, trimmed, without_prefix,
};
use vstd::prelude::*;
use vstd::string::*;

verus! {

/// One part of a statement between two slashes: a name, and a value where an
/// equal sign follows the name.
pub struct Segment {
    pub name: String,
    pub value: Option<String>,
}

/// The mathematical content of a [`Segment`].
pub struct SegmentView {
    pub name: Seq<char>,
    pub value: Option<Seq<char>>,
}

impl View for Segment {
    type V = SegmentView;

    open spec fn view(&self) -> SegmentView {
        SegmentView {
            name: self.name@,
            value: match self.value {
                Some(v) => Some(v@),
                None => None,
            },
        }
    }
}

/// The contents of a list of segments.
pub open spec fn segment_views(list: Seq<Segment>) -> Seq<SegmentView> {
    list.map_values(|s: Segment| s@)
}

/// The clause `name = value`.
pub open spec fn clause(name: Seq<char>, value: Seq<char>) -> Seq<char> {
    name + EQUALS@ + value
}

/// The identity of the variable `variable` of the dataset `domain`: the
/// dataset without whitespace around it, a dash, and the variable as it
/// stands; empty where the dataset is not known.
pub open spec fn identity(domain: Seq<char>, variable: Seq<char>) -> Seq<char> {
    if domain.len() == 0 {
        Seq::empty()
    } else {
        trimmed(domain) + DASH@ + variable
    }
}

/// Whether the record `record` has one page entry, that of the page `page`.
pub open spec fn on_page(record: AnnotationView, page: nat) -> bool {
    record.page_description.len() == 1 && record.page_description[0].page == page
}

/// Whether the identity of the record `record` is that of its dataset and
/// its variable: the dataset without whitespace around it, a dash and the
/// variable, or nothing where the dataset is not known.
pub open spec fn canonical(record: AnnotationView) -> bool {
    record.id == identity(record.domain, record.variable)
}

/// Whether the record `record` is as a statement read on the page `page`
/// gives it: it has one page entry, that of the page, the entry holds no
/// clause twice, and its identity is that of its dataset and its variable.
pub open spec fn read_on(record: AnnotationView, page: nat) -> bool {
    &&& on_page(record, page)
    &&& distinct(record.page_description[0].description)
    &&& canonical(record)
}

/// The record of one variable as one statement on one page gives it: its
/// one page entry holds each of the clauses `description` once.
pub open spec fn record_of(
    domain: Seq<char>,
    domain_id: Seq<char>,
    variable: Seq<char>,
    page: nat,
    description: Seq<Seq<char>>,
    supp: bool,
    raw: Seq<char>,
) -> AnnotationView {
    AnnotationView {
        id: identity(domain, variable),
        domain,
        domain_id,
        variable,
        page_description: seq![PageDescriptionView { page, description: once(description) }],
        supp,
        raw,
    }
}

/// `name` without a leading condition `If <word> then `.
pub open spec fn without_condition(name: Seq<char>) -> Seq<char> {
    match pattern_group(CONDITION@, name, 1) {
        Some(rest) => rest,
        None => name,
    }
}

/// The variable that the unconditional name `bare` names: `bare` without the
/// prefix `Datepart of `, without the prefix `Timepart of `, and without
/// whitespace around it. The date and the time of a variable are parts of
/// that variable.
pub open spec fn named(bare: Seq<char>) -> Seq<char> {
    trimmed(without_prefix(without_prefix(bare, DATEPART@), TIMEPART@))
}

/// The variable that `name` names: what `name` without a leading condition names.
pub open spec fn stripped_name(name: Seq<char>) -> Seq<char> {
    named(without_condition(name))
}

/// The text that `text` holds, if any.
pub open spec fn optional(text: Option<&str>) -> Option<Seq<char>> {
    match text {
        Some(t) => Some(t@),
        None => None,
    }
}

/// The segment that the text `piece` between two slashes is: its name is what
/// stands before the first equal sign, its value what stands between the first
/// and the second.
pub open spec fn segment_of(piece: Seq<char>) -> SegmentView {
    let parts = split(piece, EQUAL_SIGN@);
    SegmentView {
        name: stripped_name(trimmed(parts[0])),
        value: if parts.len() > 1 {
            Some(trimmed(parts[1]))
        } else {
            None
        },
    }
}

/// The segments of the primary clause of a statement.
pub open spec fn segments_of(primary: Seq<char>) -> Seq<SegmentView> {
    split(primary, SLASH@).map_values(|piece: Seq<char>| segment_of(piece))
}

/// Whether `name` cannot be the name of a variable: it is longer than eight
/// characters, or holds a character outside the 7-bit range.
pub open spec fn implausible(name: Seq<char>) -> bool {
    name.len() > 8 || !is_plain(name)
}

/// The value that segment `i` has once its own turn is over: its own value,
/// or, where it has none and was not absorbed, that of its right neighbour.
pub open spec fn carried(segs: Seq<SegmentView>, i: int) -> Option<Seq<char>>
    decreases i, 1int,
{
    if !(0 <= i < segs.len()) {
        None
    } else if absorbed(segs, i) {
        segs[i].value
    } else if segs[i].value is None && i + 1 < segs.len() {
        segs[i + 1].value
    } else {
        segs[i].value
    }
}

/// Whether segment `i` is no name but the continuation of the value to its
/// left: its name is implausible and its left neighbour has a value.
pub open spec fn absorbed(segs: Seq<SegmentView>, i: int) -> bool
    decreases i, 0int,
{
    &&& 0 < i < segs.len()
    &&& implausible(segs[i].name)
    &&& carried(segs, i - 1) is Some
}

/// The value that segment `i` ends with: what it carried, and after it the
/// name of its right neighbour where that one was absorbed.
pub open spec fn settled_value(segs: Seq<SegmentView>, i: int) -> Option<Seq<char>> {
    if absorbed(segs, i + 1) {
        Some(carried(segs, i)->0 + SLASH_WITH_BLANK@ + segs[i + 1].name)
    } else {
        carried(segs, i)
    }
}

/// Whether segment `i` names a variable: it was not absorbed and its name is not empty.
pub open spec fn kept(segs: Seq<SegmentView>, i: int) -> bool {
    !absorbed(segs, i) && segs[i].name.len() > 0
}

/// Those of the first `upto` segments that name a variable, each with the
/// value it ends with.
pub open spec fn settled(segs: Seq<SegmentView>, upto: int) -> Seq<SegmentView>
    decreases upto,
{
    if upto <= 0 {
        Seq::empty()
    } else if kept(segs, upto - 1) {
        settled(segs, upto - 1).push(
            SegmentView { name: segs[upto - 1].name, value: settled_value(segs, upto - 1) },
        )
    } else {
        settled(segs, upto - 1)
    }
}

/// The names and the value of a qualifying clause `NAME / NAME = VALUE`;
/// `None` where the clause holds no equal sign.
pub open spec fn qualifier(text: Seq<char>) -> Option<(Seq<Seq<char>>, Seq<char>)> {
    let parts = split(text, EQUAL_SIGN@);
    if parts.len() > 1 {
        Some((split(trimmed(parts[0]), SLASH@), trimmed(parts[1])))
    } else {
        None
    }
}

/// The names of the variables that the qualifying clause of a statement names.
pub open spec fn qualifier_names(tail: Option<Seq<char>>) -> Seq<Seq<char>> {
    match tail {
        Some(text) => match qualifier(text) {
            Some(pair) => pair.0,
            None => Seq::empty(),
        },
        None => Seq::empty(),
    }
}

/// The value that the qualifying clause of a statement gives to its variables.
pub open spec fn qualifier_value(tail: Option<Seq<char>>) -> Seq<char> {
    match tail {
        Some(text) => match qualifier(text) {
            Some(pair) => pair.1,
            None => Seq::empty(),
        },
        None => Seq::empty(),
    }
}

/// The clauses that the qualifying clause of a statement adds to each of its
/// records: one for each variable that it names, or the clause as it stands
/// where it holds no equal sign.
pub open spec fn qualifier_clauses(tail: Option<Seq<char>>) -> Seq<Seq<char>> {
    match tail {
        Some(text) => match qualifier(text) {
            Some(pair) => pair.0.map_values(|name: Seq<char>| clause(name, pair.1)),
            None => seq![text],
        },
        None => Seq::empty(),
    }
}

/// The clauses of the record of a segment.
pub open spec fn segment_clauses(seg: SegmentView, added: Seq<Seq<char>>) -> Seq<Seq<char>> {
    match seg.value {
        Some(v) => seq![clause(seg.name, trimmed(v))] + added,
        None => added,
    }
}

/// The records of the first `upto` of the settled segments `segs`.
pub open spec fn segment_records(
    segs: Seq<SegmentView>,
    added: Seq<Seq<char>>,
    raw: Seq<char>,
    page: nat,
    domain: Seq<char>,
    domain_id: Seq<char>,
    upto: int,
) -> Seq<AnnotationView>
    decreases upto,
{
    if upto <= 0 {
        Seq::empty()
    } else {
        segment_records(segs, added, raw, page, domain, domain_id, upto - 1).push(
            record_of(
                domain,
                domain_id,
                segs[upto - 1].name,
                page,
                segment_clauses(segs[upto - 1], added),
                false,
                raw,
            ),
        )
    }
}

/// The records of those of the first `upto` names of a qualifying clause that
/// end in `TESTCD`: a test code is a variable of its own.
pub open spec fn code_records(
    names: Seq<Seq<char>>,
    value: Seq<char>,
    raw: Seq<char>,
    page: nat,
    domain: Seq<char>,
    domain_id: Seq<char>,
    upto: int,
) -> Seq<AnnotationView>
    decreases upto,
{
    if upto <= 0 {
        Seq::empty()
    } else if has_suffix(names[upto - 1], TESTCD@) {
        code_records(names, value, raw, page, domain, domain_id, upto - 1).push(
            record_of(
                domain,
                domain_id,
                names[upto - 1],
                page,
                seq![clause(names[upto - 1], value)],
                false,
                raw,
            ),
        )
    } else {
        code_records(names, value, raw, page, domain, domain_id, upto - 1)
    }
}

/// The records of a statement whose primary clause has the segments `segs`
/// and whose qualifying clause is `tail`: first one for each segment that
/// names a variable, in their order, then one for each test code of the
/// qualifying clause.
pub open spec fn main_statement_of(
    segs: Seq<SegmentView>,
    tail: Option<Seq<char>>,
    raw: Seq<char>,
    page: nat,
    domain: Seq<char>,
    domain_id: Seq<char>,
) -> Seq<AnnotationView> {
    let kept = settled(segs, segs.len() as int);
    let names = qualifier_names(tail);
    segment_records(kept, qualifier_clauses(tail), raw, page, domain, domain_id, kept.len() as int)
        + code_records(
        names,
        qualifier_value(tail),
        raw,
        page,
        domain,
        domain_id,
        names.len() as int,
    )
}

/// The records of the statement `raw` found on page `page`, where the dataset
/// of the page is `domain` (empty where it is not known). The statement is
/// cut at its first ` when `: what stands before is the primary clause, what
/// stands after the qualifying clause.
pub open spec fn main_statement(
    raw: Seq<char>,
    page: nat,
    domain: Seq<char>,
    domain_id: Seq<char>,
) -> Seq<AnnotationView> {
    let cut = split_first(raw, WHEN@);
    main_statement_of(segments_of(cut.0), cut.1, raw, page, domain, domain_id)
}

/// The dataset of the supplemental variables of a page whose dataset is `domain`.
pub open spec fn supplemental(domain: Seq<char>) -> Seq<char> {
    if domain.len() == 0 {
        Seq::empty()
    } else {
        SUPP@ + domain
    }
}

/// The clauses of the record of a supplemental variable.
pub open spec fn supplement_clauses(
    name: Seq<char>,
    value: Option<Seq<char>>,
    tail: Option<Seq<char>>,
) -> Seq<Seq<char>> {
    let own = match value {
        Some(v) => seq![clause(trimmed(name), trimmed(v))],
        None => Seq::empty(),
    };
    match tail {
        Some(text) => own.push(text),
        None => own,
    }
}

/// The records of the first `upto` names of a supplemental statement.
pub open spec fn supplement_records(
    names: Seq<Seq<char>>,
    value: Option<Seq<char>>,
    tail: Option<Seq<char>>,
    raw: Seq<char>,
    page: nat,
    domain: Seq<char>,
    domain_id: Seq<char>,
    upto: int,
) -> Seq<AnnotationView>
    decreases upto,
{
    if upto <= 0 {
        Seq::empty()
    } else {
        supplement_records(names, value, tail, raw, page, domain, domain_id, upto - 1).push(
            record_of(
                supplemental(domain),
                domain_id,
                trimmed(names[upto - 1]),
                page,
                supplement_clauses(names[upto - 1], value, tail),
                true,
                raw,
            ),
        )
    }
}

/// The records of a supplemental statement that names the variables `list`,
/// a list of names with slashes between them.
pub open spec fn supp_statement_of(
    list: Seq<char>,
    value: Option<Seq<char>>,
    tail: Option<Seq<char>>,
    raw: Seq<char>,
    page: nat,
    domain: Seq<char>,
    domain_id: Seq<char>,
) -> Seq<AnnotationView> {
    let names = split(replaced(list, SLASH_WITH_BLANK@, SLASH@), SLASH@);
    supplement_records(names, value, tail, raw, page, domain, domain_id, names.len() as int)
}

/// The records of the supplemental statement `raw` found on page `page`,
/// where the dataset of the page is `domain` (empty where it is not known):
/// one for each name before ` in `, none where ` in ` is missing. What
/// stands before ` in ` is a list of names, without a leading condition, and
/// after an equal sign their value.
pub open spec fn supp_statement(
    raw: Seq<char>,
    page: nat,
    domain: Seq<char>,
    domain_id: Seq<char>,
) -> Seq<AnnotationView> {
    let cut = split_first(raw, WHEN@);
    let parts = split(cut.0, IN@);
    if parts.len() < 2 {
        Seq::empty()
    } else {
        let sides = split(parts[0], EQUAL_SIGN@);
        let value = if sides.len() > 1 {
            Some(sides[1])
        } else {
            None
        };
        supp_statement_of(without_condition(sides[0]), value, cut.1, raw, page, domain, domain_id)
    }
}

/// The number of records that the primary clause of the statement `raw` gives.
pub open spec fn primary_count(raw: Seq<char>) -> int {
    let segs = segments_of(split_first(raw, WHEN@).0);
    settled(segs, segs.len() as int).len() as int
}

/// The record of the test code `name` of the qualifying clause of the statement `raw`.
pub open spec fn code_record(
    raw: Seq<char>,
    page: nat,
    domain: Seq<char>,
    domain_id: Seq<char>,
    name: Seq<char>,
) -> AnnotationView {
    record_of(
        domain,
        domain_id,
        name,
        page,
        seq![clause(name, qualifier_value(split_first(raw, WHEN@).1))],
        false,
        raw,
    )
}

/// Each settled segment gives one record.
pub proof fn lemma_segment_records_len(
    segs: Seq<SegmentView>,
    added: Seq<Seq<char>>,
    raw: Seq<char>,
    page: nat,
    domain: Seq<char>,
    domain_id: Seq<char>,
    upto: int,
)
    requires
        0 <= upto,
    ensures
        segment_records(segs, added, raw, page, domain, domain_id, upto).len() == upto,
    decreases upto,
{
    if upto > 0 {
        lemma_segment_records_len(segs, added, raw, page, domain, domain_id, upto - 1);
    }
}

/// Each name that ends in `TESTCD` has its record among the records of the test codes.
pub proof fn lemma_code_records_hold(
    names: Seq<Seq<char>>,
    value: Seq<char>,
    raw: Seq<char>,
    page: nat,
    domain: Seq<char>,
    domain_id: Seq<char>,
    upto: int,
    k: int,
)
    requires
        0 <= k < upto <= names.len(),
        has_suffix(names[k], TESTCD@),
    ensures
        code_records(names, value, raw, page, domain, domain_id, upto).contains(
            record_of(domain, domain_id, names[k], page, seq![clause(names[k], value)], false, raw),
        ),
    decreases upto,
{
    let wanted = record_of(
        domain,
        domain_id,
        names[k],
        page,
        seq![clause(names[k], value)],
        false,
        raw,
    );
    let before = code_records(names, value, raw, page, domain, domain_id, upto - 1);
    let now = code_records(names, value, raw, page, domain, domain_id, upto);
    if k == upto - 1 {
        assert(now[before.len() as int] == wanted);
    } else {
        lemma_code_records_hold(names, value, raw, page, domain, domain_id, upto - 1, k);
        let i = choose|i: int| 0 <= i < before.len() && before[i] == wanted;
        assert(now[i] == wanted);
    }
}

/// A variable of the qualifying clause whose name ends in `TESTCD` has a
/// record of its own: it stands among the records of the statement, after
/// those of the primary clause, and holds the one clause that gives it its value.
pub proof fn lemma_test_code_record(
    raw: Seq<char>,
    page: nat,
    domain: Seq<char>,
    domain_id: Seq<char>,
    k: int,
)
    requires
        0 <= k < qualifier_names(split_first(raw, WHEN@).1).len(),
        has_suffix(qualifier_names(split_first(raw, WHEN@).1)[k], TESTCD@),
    ensures
        exists|i: int|
            primary_count(raw) <= i < main_statement(raw, page, domain, domain_id).len()
                && #[trigger] main_statement(raw, page, domain, domain_id)[i] == code_record(
                raw,
                page,
                domain,
                domain_id,
                qualifier_names(split_first(raw, WHEN@).1)[k],
            ),
{
    let cut = split_first(raw, WHEN@);
    let segs = segments_of(cut.0);
    let kept = settled(segs, segs.len() as int);
    let names = qualifier_names(cut.1);
    let value = qualifier_value(cut.1);
    let first = segment_records(
        kept,
        qualifier_clauses(cut.1),
        raw,
        page,
        domain,
        domain_id,
        kept.len() as int,
    );
    let codes = code_records(names, value, raw, page, domain, domain_id, names.len() as int);
    lemma_segment_records_len(
        kept,
        qualifier_clauses(cut.1),
        raw,
        page,
        domain,
        domain_id,
        kept.len() as int,
    );
    lemma_code_records_hold(names, value, raw, page, domain, domain_id, names.len() as int, k);
    let wanted = code_record(raw, page, domain, domain_id, names[k]);
    let j = choose|j: int| 0 <= j < codes.len() && codes[j] == wanted;
    let all = main_statement(raw, page, domain, domain_id);
    assert(all[first.len() + j] == wanted);
}

/// The date part and the time part of a variable name that variable: a
/// name that begins with neither prefix names the same with either prefix
/// before it as it does alone.
pub proof fn lemma_parts_name_the_variable(name: Seq<char>)
    requires
        !has_prefix(name, DATEPART@),
        !has_prefix(name, TIMEPART@),
    ensures
        named(name) == trimmed(name),
        named(DATEPART@ + name) == trimmed(name),
        named(TIMEPART@ + name) == trimmed(name),
{
    reveal_strlit("Datepart of ");
    reveal_strlit("Timepart of ");
    let d = DATEPART@;
    let t = TIMEPART@;
    let dn = d + name;
    let tn = t + name;
    assert(dn.subrange(0, d.len() as int) =~= d);
    assert(dn.subrange(d.len() as int, dn.len() as int) =~= name);
    assert(tn.subrange(0, t.len() as int) =~= t);
    assert(tn.subrange(t.len() as int, tn.len() as int) =~= name);
    assert(!has_prefix(tn, d)) by {
        if has_prefix(tn, d) {
            assert(tn.subrange(0, d.len() as int)[0] == d[0]);
        }
    }
}

/// What a statement that is nothing but a variable with its part before it
/// asks of that variable: the statement holds no ` when `, no slash and no
/// equal sign, the variable is not itself the part of a variable, and it
/// does not end in whitespace.
pub open spec fn bare_part(prefix: Seq<char>, name: Seq<char>) -> bool {
    &&& prefix == DATEPART@ || prefix == TIMEPART@
    &&& name.len() > 0
    &&& !is_whitespace(name.last())
    &&& trimmed(name).len() > 0
    &&& !has_prefix(name, DATEPART@)
    &&& !has_prefix(name, TIMEPART@)
    &&& !has_infix(prefix + name, WHEN@)
    &&& !has_infix(prefix + name, SLASH@)
    &&& !has_infix(prefix + name, EQUAL_SIGN@)
}

/// The date part and the time part of a variable are that variable: a
/// statement that is `Datepart of ` or `Timepart of ` and the name of a
/// variable, in which the condition pattern finds nothing, gives one record,
/// that of the variable, without a clause.
pub proof fn lemma_part_statement(
    prefix: Seq<char>,
    name: Seq<char>,
    page: nat,
    domain: Seq<char>,
    domain_id: Seq<char>,
)
    requires
        bare_part(prefix, name),
        pattern_group(CONDITION@, prefix + name, 1) is None,
    ensures
        main_statement(prefix + name, page, domain, domain_id) == seq![
            record_of(
                domain,
                domain_id,
                trimmed(name),
                page,
                Seq::empty(),
                false,
                prefix + name,
            ),
        ],
{
    reveal_strlit("Datepart of ");
    reveal_strlit("Timepart of ");
    lemma_separators();
    let raw = prefix + name;
    let whole = raw.subrange(0, raw.len() as int);
    assert(whole =~= raw);
    assert(raw[0] == prefix[0]);
    assert(raw.last() == name.last());
    assert(!is_whitespace(raw[0]));
    assert(skip_whitespace(raw, 0) == 0);
    assert(skip_whitespace_back(raw, 0, raw.len() as int) == raw.len());
    assert(trimmed(raw) == raw);
    lemma_parts_name_the_variable(name);
    assert(stripped_name(raw) == trimmed(name));
    // the statement is one segment, and has no qualifying clause
    let cut = split_first(raw, WHEN@);
    assert(cut.0 == raw && cut.1 is None);
    assert(split(raw, SLASH@) =~= seq![raw]);
    assert(split(raw, EQUAL_SIGN@) =~= seq![raw]);
    let seg = SegmentView { name: trimmed(name), value: None };
    assert(segment_of(raw) == seg);
    let segs = segments_of(raw);
    assert(segs =~= seq![seg]);
    assert(!absorbed(segs, 0));
    assert(!absorbed(segs, 1));
    assert(carried(segs, 0) is None);
    assert(settled(segs, 0) =~= Seq::<SegmentView>::empty());
    assert(settled(segs, 1) =~= seq![seg]);
    let kept = settled(segs, segs.len() as int);
    let none = Seq::<Seq<char>>::empty();
    assert(qualifier_clauses(cut.1) == none);
    assert(qualifier_names(cut.1) == none);
    assert(segment_clauses(seg, none) == none);
    let record = record_of(domain, domain_id, trimmed(name), page, none, false, raw);
    let first = segment_records(kept, none, raw, page, domain, domain_id, 1);
    assert(segment_records(kept, none, raw, page, domain, domain_id, 0)
        =~= Seq::<AnnotationView>::empty());
    assert(first =~= seq![record]);
    let codes = code_records(none, qualifier_value(cut.1), raw, page, domain, domain_id, 0);
    assert(codes =~= Seq::<AnnotationView>::empty());
    assert(main_statement(raw, page, domain, domain_id) =~= seq![record]);
}

/// The date part and the time part of a variable give records of one
/// variable, in one dataset and of one identity, whichever part is named.
pub proof fn lemma_parts_give_one_variable(
    name: Seq<char>,
    page: nat,
    domain: Seq<char>,
    domain_id: Seq<char>,
)
    requires
        bare_part(DATEPART@, name),
        bare_part(TIMEPART@, name),
        pattern_group(CONDITION@, DATEPART@ + name, 1) is None,
        pattern_group(CONDITION@, TIMEPART@ + name, 1) is None,
    ensures
        ({
            let date = main_statement(DATEPART@ + name, page, domain, domain_id);
            let time = main_statement(TIMEPART@ + name, page, domain, domain_id);
            &&& date.len() == 1
            &&& time.len() == 1
            &&& date[0].variable == trimmed(name)
            &&& time[0].variable == date[0].variable
            &&& time[0].domain == date[0].domain
            &&& time[0].id == date[0].id
            &&& time[0].page_description == date[0].page_description
        }),
{
    lemma_part_statement(DATEPART@, name, page, domain, domain_id);
    lemma_part_statement(TIMEPART@, name, page, domain, domain_id);
}

/// Whether the record `record` is one that a statement `raw` gives on the
/// page `page` under the marker `domain_id`, in the dataset `dataset`: it
/// keeps the statement and the marker, is of that dataset, and is as a
/// statement read on that page gives it.
pub open spec fn record_from(
    record: AnnotationView,
    raw: Seq<char>,
    page: nat,
    dataset: Seq<char>,
    domain_id: Seq<char>,
    supp: bool,
) -> bool {
    &&& record.raw == raw
    &&& record.domain == dataset
    &&& record.domain_id == domain_id
    &&& record.supp == supp
    &&& read_on(record, page)
}

/// Every record that `record_of` makes is one of its statement, its page,
/// its marker and its dataset.
pub proof fn lemma_record_of(
    domain: Seq<char>,
    domain_id: Seq<char>,
    variable: Seq<char>,
    page: nat,
    description: Seq<Seq<char>>,
    supp: bool,
    raw: Seq<char>,
)
    ensures
        record_from(
            record_of(domain, domain_id, variable, page, description, supp, raw),
            raw,
            page,
            domain,
            domain_id,
            supp,
        ),
        record_of(domain, domain_id, variable, page, description, supp, raw).variable == variable,
{
    lemma_once(description);
}

/// Every record of a statement on a dataset keeps the statement and the
/// marker, is of the dataset of the page and of no supplemental dataset, has
/// one page entry, that of the page, without a clause twice, and has the
/// identity of its dataset and its variable.
pub proof fn lemma_main_statement_records(
    raw: Seq<char>,
    page: nat,
    domain: Seq<char>,
    domain_id: Seq<char>,
)
    ensures
        forall|i: int|
            0 <= i < main_statement(raw, page, domain, domain_id).len() ==> record_from(
                #[trigger] main_statement(raw, page, domain, domain_id)[i],
                raw,
                page,
                domain,
                domain_id,
                false,
            ),
{
    let cut = split_first(raw, WHEN@);
    let segs = segments_of(cut.0);
    let kept = settled(segs, segs.len() as int);
    let added = qualifier_clauses(cut.1);
    let names = qualifier_names(cut.1);
    let value = qualifier_value(cut.1);
    lemma_segment_records_from(kept, added, raw, page, domain, domain_id, kept.len() as int);
    lemma_code_records_from(names, value, raw, page, domain, domain_id, names.len() as int);
}

/// Every record of segments is one of their statement.
pub proof fn lemma_segment_records_from(
    segs: Seq<SegmentView>,
    added: Seq<Seq<char>>,
    raw: Seq<char>,
    page: nat,
    domain: Seq<char>,
    domain_id: Seq<char>,
    upto: int,
)
    requires
        0 <= upto,
    ensures
        forall|i: int|
            0 <= i < segment_records(segs, added, raw, page, domain, domain_id, upto).len()
                ==> record_from(
                #[trigger] segment_records(segs, added, raw, page, domain, domain_id, upto)[i],
                raw,
                page,
                domain,
                domain_id,
                false,
            ),
    decreases upto,
{
    if upto > 0 {
        lemma_segment_records_from(segs, added, raw, page, domain, domain_id, upto - 1);
        lemma_record_of(
            domain,
            domain_id,
            segs[upto - 1].name,
            page,
            segment_clauses(segs[upto - 1], added),
            false,
            raw,
        );
        let before = segment_records(segs, added, raw, page, domain, domain_id, upto - 1);
        let now = segment_records(segs, added, raw, page, domain, domain_id, upto);
        assert forall|i: int| 0 <= i < now.len() implies record_from(
            #[trigger] now[i],
            raw,
            page,
            domain,
            domain_id,
            false,
        ) by {
            if i < before.len() {
                assert(now[i] == before[i]);
            }
        }
    }
}

/// Every record of a test code is one of its statement.
pub proof fn lemma_code_records_from(
    names: Seq<Seq<char>>,
    value: Seq<char>,
    raw: Seq<char>,
    page: nat,
    domain: Seq<char>,
    domain_id: Seq<char>,
    upto: int,
)
    requires
        0 <= upto,
    ensures
        forall|i: int|
            0 <= i < code_records(names, value, raw, page, domain, domain_id, upto).len()
                ==> record_from(
                #[trigger] code_records(names, value, raw, page, domain, domain_id, upto)[i],
                raw,
                page,
                domain,
                domain_id,
                false,
            ),
    decreases upto,
{
    if upto > 0 {
        lemma_code_records_from(names, value, raw, page, domain, domain_id, upto - 1);
        lemma_record_of(
            domain,
            domain_id,
            names[upto - 1],
            page,
            seq![clause(names[upto - 1], value)],
            false,
            raw,
        );
        let before = code_records(names, value, raw, page, domain, domain_id, upto - 1);
        let now = code_records(names, value, raw, page, domain, domain_id, upto);
        assert forall|i: int| 0 <= i < now.len() implies record_from(
            #[trigger] now[i],
            raw,
            page,
            domain,
            domain_id,
            false,
        ) by {
            if i < before.len() {
                assert(now[i] == before[i]);
            }
        }
    }
}

/// Every record of a statement on a supplemental dataset keeps the
/// statement and the marker, is of the supplemental dataset of the page, has
/// one page entry, that of the page, without a clause twice, and has the
/// identity of its dataset and its variable.
pub proof fn lemma_supp_statement_records(
    raw: Seq<char>,
    page: nat,
    domain: Seq<char>,
    domain_id: Seq<char>,
)
    ensures
        forall|i: int|
            0 <= i < supp_statement(raw, page, domain, domain_id).len() ==> record_from(
                #[trigger] supp_statement(raw, page, domain, domain_id)[i],
                raw,
                page,
                supplemental(domain),
                domain_id,
                true,
            ),
{
    let cut = split_first(raw, WHEN@);
    let parts = split(cut.0, IN@);
    if parts.len() >= 2 {
        let sides = split(parts[0], EQUAL_SIGN@);
        let value = if sides.len() > 1 {
            Some(sides[1])
        } else {
            None
        };
        let names = split(
            replaced(without_condition(sides[0]), SLASH_WITH_BLANK@, SLASH@),
            SLASH@,
        );
        lemma_supplement_records_from(
            names,
            value,
            cut.1,
            raw,
            page,
            domain,
            domain_id,
            names.len() as int,
        );
    }
}

/// Every record of a supplemental variable is one of its statement.
pub proof fn lemma_supplement_records_from(
    names: Seq<Seq<char>>,
    value: Option<Seq<char>>,
    tail: Option<Seq<char>>,
    raw: Seq<char>,
    page: nat,
    domain: Seq<char>,
    domain_id: Seq<char>,
    upto: int,
)
    requires
        0 <= upto,
    ensures
        forall|i: int|
            0 <= i < supplement_records(
                names,
                value,
                tail,
                raw,
                page,
                domain,
                domain_id,
                upto,
            ).len() ==> record_from(
                #[trigger] supplement_records(
                    names,
                    value,
                    tail,
                    raw,
                    page,
                    domain,
                    domain_id,
                    upto,
                )[i],
                raw,
                page,
                supplemental(domain),
                domain_id,
                true,
            ),
    decreases upto,
{
    if upto > 0 {
        lemma_supplement_records_from(names, value, tail, raw, page, domain, domain_id, upto - 1);
        lemma_record_of(
            supplemental(domain),
            domain_id,
            trimmed(names[upto - 1]),
            page,
            supplement_clauses(names[upto - 1], value, tail),
            true,
            raw,
        );
        let before = supplement_records(
            names,
            value,
            tail,
            raw,
            page,
            domain,
            domain_id,
            upto - 1,
        );
        let now = supplement_records(names, value, tail, raw, page, domain, domain_id, upto);
        assert forall|i: int| 0 <= i < now.len() implies record_from(
            #[trigger] now[i],
            raw,
            page,
            supplemental(domain),
            domain_id,
            true,
        ) by {
            if i < before.len() {
                assert(now[i] == before[i]);
            }
        }
    }
}

/// The records of segments depend on the statement they were read from
/// only in that they keep it.
pub proof fn lemma_segment_records_raw(
    segs: Seq<SegmentView>,
    added: Seq<Seq<char>>,
    raw: Seq<char>,
    other: Seq<char>,
    page: nat,
    domain: Seq<char>,
    domain_id: Seq<char>,
    upto: int,
)
    requires
        0 <= upto,
    ensures
        segment_records(segs, added, other, page, domain, domain_id, upto).len()
            == segment_records(segs, added, raw, page, domain, domain_id, upto).len(),
        forall|i: int|
            0 <= i < segment_records(segs, added, raw, page, domain, domain_id, upto).len()
                ==> #[trigger] segment_records(
                segs,
                added,
                other,
                page,
                domain,
                domain_id,
                upto,
            )[i] == (AnnotationView {
                raw: other,
                ..segment_records(segs, added, raw, page, domain, domain_id, upto)[i]
            }),
    decreases upto,
{
    if upto > 0 {
        lemma_segment_records_raw(segs, added, raw, other, page, domain, domain_id, upto - 1);
    }
}

/// The records of test codes depend on the statement they were read from
/// only in that they keep it.
pub proof fn lemma_code_records_raw(
    names: Seq<Seq<char>>,
    value: Seq<char>,
    raw: Seq<char>,
    other: Seq<char>,
    page: nat,
    domain: Seq<char>,
    domain_id: Seq<char>,
    upto: int,
)
    requires
        0 <= upto,
    ensures
        code_records(names, value, other, page, domain, domain_id, upto).len() == code_records(
            names,
            value,
            raw,
            page,
            domain,
            domain_id,
            upto,
        ).len(),
        forall|i: int|
            0 <= i < code_records(names, value, raw, page, domain, domain_id, upto).len()
                ==> #[trigger] code_records(names, value, other, page, domain, domain_id, upto)[i]
                == (AnnotationView {
                raw: other,
                ..code_records(names, value, raw, page, domain, domain_id, upto)[i]
            }),
    decreases upto,
{
    if upto > 0 {
        lemma_code_records_raw(names, value, raw, other, page, domain, domain_id, upto - 1);
    }
}

/// The first name of the statement `s`: what stands before the first slash
/// and the first equal sign of its primary clause.
pub open spec fn first_name(s: Seq<char>) -> Seq<char> {
    split(split(split_first(s, WHEN@).0, SLASH@)[0], EQUAL_SIGN@)[0]
}

/// Whether `c` can stand before the statement `s` as its condition: it holds
/// no slash and no equal sign, and no ` when ` begins in it.
pub open spec fn conditional(c: Seq<char>, s: Seq<char>) -> bool {
    &&& forall|i: int| 0 <= i < c.len() ==> c[i] != '/' && c[i] != '='
    &&& forall|i: int| 0 <= i < c.len() ==> !occurs_at(c + s, WHEN@, i)
}

/// A condition before a statement changes nothing but the text that the
/// records keep: where the first name of the statement names the same
/// variable with the condition before it as without, the statement with the
/// condition gives the records of the statement without, in their order,
/// each with the same variable, identity and clauses.
pub proof fn lemma_condition_statement(
    c: Seq<char>,
    s: Seq<char>,
    page: nat,
    domain: Seq<char>,
    domain_id: Seq<char>,
)
    requires
        conditional(c, s),
        stripped_name(trimmed(c + first_name(s))) == stripped_name(trimmed(first_name(s))),
    ensures
        main_statement(c + s, page, domain, domain_id).len() == main_statement(
            s,
            page,
            domain,
            domain_id,
        ).len(),
        forall|i: int|
            0 <= i < main_statement(s, page, domain, domain_id).len() ==> #[trigger] main_statement(
                c + s,
                page,
                domain,
                domain_id,
            )[i] == (AnnotationView {
                raw: c + s,
                ..main_statement(s, page, domain, domain_id)[i]
            }),
{
    reveal_strlit("/");
    reveal_strlit("=");
    lemma_separators();
    let raw = c + s;
    lemma_split_first_after(c, s, WHEN@);
    let cut = split_first(s, WHEN@);
    let primary = cut.0;
    let tail = cut.1;
    assert(split_first(raw, WHEN@).0 == c + primary);
    assert(split_first(raw, WHEN@).1 == tail);
    assert forall|i: int| 0 <= i < c.len() implies !occurs_at(c + primary, SLASH@, i) by {
        if occurs_at(c + primary, SLASH@, i) {
            assert((c + primary).subrange(i, i + 1)[0] == SLASH@[0]);
        }
    }
    lemma_split_after(c, primary, SLASH@);
    let pieces = split(primary, SLASH@);
    let with_pieces = split(c + primary, SLASH@);
    let piece = pieces[0];
    assert forall|i: int| 0 <= i < c.len() implies !occurs_at(c + piece, EQUAL_SIGN@, i) by {
        if occurs_at(c + piece, EQUAL_SIGN@, i) {
            assert((c + piece).subrange(i, i + 1)[0] == EQUAL_SIGN@[0]);
        }
    }
    lemma_split_after(c, piece, EQUAL_SIGN@);
    assert(first_name(s) == split(piece, EQUAL_SIGN@)[0]);
    assert(segment_of(c + piece) == segment_of(piece));
    let segs = segments_of(primary);
    let with_segs = segments_of(c + primary);
    assert forall|k: int| 0 <= k < segs.len() implies with_segs[k] == segs[k] by {
        if k > 0 {
            assert(with_pieces[k] == pieces[k]);
        }
    }
    assert(with_segs =~= segs);
    let kept = settled(segs, segs.len() as int);
    let names = qualifier_names(tail);
    lemma_segment_records_raw(
        kept,
        qualifier_clauses(tail),
        s,
        raw,
        page,
        domain,
        domain_id,
        kept.len() as int,
    );
    lemma_code_records_raw(
        names,
        qualifier_value(tail),
        s,
        raw,
        page,
        domain,
        domain_id,
        names.len() as int,
    );
    let first = segment_records(
        kept,
        qualifier_clauses(tail),
        s,
        page,
        domain,
        domain_id,
        kept.len() as int,
    );
    let codes = code_records(
        names,
        qualifier_value(tail),
        s,
        page,
        domain,
        domain_id,
        names.len() as int,
    );
    let with_first = segment_records(
        kept,
        qualifier_clauses(tail),
        raw,
        page,
        domain,
        domain_id,
        kept.len() as int,
    );
    let with_codes = code_records(
        names,
        qualifier_value(tail),
        raw,
        page,
        domain,
        domain_id,
        names.len() as int,
    );
    let plain = main_statement(s, page, domain, domain_id);
    let conditioned = main_statement(raw, page, domain, domain_id);
    assert(plain == first + codes);
    assert(conditioned == with_first + with_codes);
    assert forall|i: int| 0 <= i < plain.len() implies #[trigger] conditioned[i] == (
    AnnotationView { raw, ..plain[i] }) by {
        if i < first.len() {
            assert(conditioned[i] == with_first[i]);
            assert(plain[i] == first[i]);
        } else {
            assert(conditioned[i] == with_codes[i - first.len()]);
            assert(plain[i] == codes[i - first.len()]);
        }
    }
}

/// The identity of the variable `variable` of the dataset `domain`.
pub fn identify(domain: &str, variable: &str) -> (id: String)
    ensures
        id@ == identity(domain@, variable@),
{
    if domain.is_empty() {
        String::new()
    } else {
        concat3(trim(domain), DASH, variable)
    }
}

/// The record of one variable as one statement on one page gives it.
pub fn make_record(
    domain: &str,
    domain_id: &str,
    variable: &str,
    page: usize,
    description: Vec<String>,
    supp: bool,
    raw: &str,
) -> (out: Annotation)
    ensures
        out@ == record_of(
            domain@,
            domain_id@,
            variable@,
            page as nat,
            description.deep_view(),
            supp,
            raw@,
        ),
        read_on(out@, page as nat),
{
    let mut history: Vec<PageDescription> = Vec::new();
    let clean = once_each(&description);
    history.push(PageDescription { page, description: clean });
    let out = Annotation {
        id: identify(domain, variable),
        domain: domain.to_owned(),
        domain_id: domain_id.to_owned(),
        variable: variable.to_owned(),
        page_description: history,
        supp,
        raw: raw.to_owned(),
    };
    proof {
        assert(out@.page_description =~= seq![
            PageDescriptionView {
                page: page as nat,
                description: once(description.deep_view()),
            },
        ]);
    }
    out
}

/// `name` without a leading condition.
pub fn strip_condition(name: &str) -> (out: String)
    ensures
        out@ == without_condition(name@),
{
    match capture(CONDITION, name, 1) {
        Some(rest) => rest,
        None => name.to_owned(),
    }
}

/// The variable that the unconditional name `bare` names.
pub fn name_of(bare: &str) -> (out: String)
    ensures
        out@ == named(bare@),
{
    trim(strip_prefix(strip_prefix(bare, DATEPART), TIMEPART)).to_owned()
}

/// The variable that `name` names.
pub fn strip_name(name: &str) -> (out: String)
    ensures
        out@ == stripped_name(name@),
{
    let bare = strip_condition(name);
    name_of(bare.as_str())
}

/// Reads the segment that stands between two slashes.
pub fn read_segment(piece: &str) -> (out: Segment)
    ensures
        out@ == segment_of(piece@),
{
    proof {
        lemma_separators();
    }
    let parts = split_text(piece, EQUAL_SIGN);
    let name = strip_name(trim(parts[0]));
    let value = if parts.len() > 1 {
        Some(trim(parts[1]).to_owned())
    } else {
        None
    };
    Segment { name, value }
}

/// Reads the segments of the primary clause of a statement.
pub fn read_segments(primary: &str) -> (out: Vec<Segment>)
    ensures
        segment_views(out@) == segments_of(primary@),
{
    proof {
        lemma_separators();
    }
    let pieces = split_text(primary, SLASH);
    let n = pieces.len();
    let mut out: Vec<Segment> = Vec::new();
    let mut i: usize = 0;
    while i < n
        invariant
            i <= n,
            n == pieces@.len(),
            pieces.deep_view() == split(primary@, SLASH@),
            out@.len() == i,
            forall|j: int| 0 <= j < i ==> (#[trigger] out@[j])@ == segment_of(pieces@[j]@),
        decreases n - i,
    {
        out.push(read_segment(pieces[i]));
        i += 1;
    }
    out
}

/// Tells whether `sample` holds a character outside the 7-bit range, as
/// every Chinese character is.
pub fn contains_chinese_char(sample: &str) -> (out: bool)
    ensures
        out == !is_plain(sample@),
{
    !plain(sample)
}

/// Tells whether `name` cannot be the name of a variable.
pub fn is_implausible(name: &str) -> (out: bool)
    ensures
        out == implausible(name@),
{
    char_count(name) > 8 || contains_chinese_char(name)
}

/// The value of `value`, copied.
fn copy_value(value: &Option<String>) -> (out: Option<String>)
    ensures
        out is Some == value is Some,
        out is Some ==> out->0@ == value->0@,
{
    match value {
        Some(v) => Some(v.clone()),
        None => None,
    }
}

/// Settles the segments of a primary clause: a segment whose name is
/// implausible continues the value to its left, a segment without a value
/// takes that of its right neighbour, and what names a variable stays.
pub fn settle(segs: &Vec<Segment>) -> (out: Vec<Segment>)
    ensures
        segment_views(out@) == settled(segment_views(segs@), segs@.len() as int),
{
    let n = segs.len();
    let ghost model = segment_views(segs@);
    let mut out: Vec<Segment> = Vec::new();
    let mut taken = false;
    let mut i: usize = 0;
    while i < n
        invariant
            i <= n,
            n == segs@.len(),
            model == segment_views(segs@),
            taken == absorbed(model, i as int),
            segment_views(out@) == settled(model, i as int),
        decreases n - i,
    {
        let own = copy_value(&segs[i].value);
        let held = if !taken && own.is_none() && i + 1 < n {
            copy_value(&segs[i + 1].value)
        } else {
            own
        };
        let mut next_taken = false;
        if i + 1 < n {
            if held.is_some() && is_implausible(segs[i + 1].name.as_str()) {
                next_taken = true;
            }
        }
        if !taken && !segs[i].name.as_str().is_empty() {
            let value = match held {
                Some(v) => {
                    if next_taken {
                        Some(concat3(v.as_str(), SLASH_WITH_BLANK, segs[i + 1].name.as_str()))
                    } else {
                        Some(v)
                    }
                },
                None => None,
            };
            let seg = Segment { name: segs[i].name.clone(), value };
            assert(seg@ == SegmentView {
                name: model[i as int].name,
                value: settled_value(model, i as int),
            });
            out.push(seg);
        }
        taken = next_taken;
        i += 1;
    }
    out
}

/// What the qualifying clause of a statement says.
pub struct Qualifier {
    /// The variables that the clause names.
    pub names: Vec<String>,
    /// The value that it gives them.
    pub value: String,
    /// The clauses that it adds to each record of the statement.
    pub clauses: Vec<String>,
}

/// Reads the qualifying clause of a statement.
pub fn read_qualifier(tail: Option<&str>) -> (out: Qualifier)
    ensures
        out.names.deep_view() == qualifier_names(optional(tail)),
        out.value@ == qualifier_value(optional(tail)),
        out.clauses.deep_view() == qualifier_clauses(optional(tail)),
{
    proof {
        lemma_separators();
    }
    let mut names: Vec<String> = Vec::new();
    let mut clauses: Vec<String> = Vec::new();
    match tail {
        None => {
            Qualifier { names, value: String::new(), clauses }
        },
        Some(text) => {
            let parts = split_text(text, EQUAL_SIGN);
            if parts.len() > 1 {
                let value = trim(parts[1]);
                let pieces = split_text(trim(parts[0]), SLASH);
                let n = pieces.len();
                let ghost wanted = split(trimmed(parts@[0]@), SLASH@);
                let mut i: usize = 0;
                while i < n
                    invariant
                        i <= n,
                        n == pieces@.len(),
                        pieces.deep_view() == wanted,
                        names@.len() == i,
                        clauses@.len() == i,
                        forall|j: int| 0 <= j < i ==> (#[trigger] names@[j])@ == wanted[j],
                        forall|j: int|
                            0 <= j < i ==> (#[trigger] clauses@[j])@ == clause(wanted[j], value@),
                    decreases n - i,
                {
                    names.push(pieces[i].to_owned());
                    clauses.push(concat3(pieces[i], EQUALS, value));
                    i += 1;
                }
                proof {
                    assert(clauses.deep_view() =~= wanted.map_values(
                        |name: Seq<char>| clause(name, value@),
                    ));
                }
                Qualifier { names, value: value.to_owned(), clauses }
            } else {
                clauses.push(text.to_owned());
                Qualifier { names, value: String::new(), clauses }
            }
        },
    }
}

/// The clauses of the record of a segment.
fn clauses_of(seg: &Segment, added: &Vec<String>) -> (out: Vec<String>)
    ensures
        out.deep_view() == segment_clauses(seg@, added.deep_view()),
{
    match &seg.value {
        Some(v) => {
            let mut out: Vec<String> = Vec::new();
            out.push(concat3(seg.name.as_str(), EQUALS, trim(v.as_str())));
            let n = added.len();
            let mut i: usize = 0;
            while i < n
                invariant
                    i <= n,
                    n == added@.len(),
                    out@.len() == i + 1,
                    out@[0]@ == clause(seg@.name, trimmed(v@)),
                    forall|j: int| 1 <= j <= i ==> (#[trigger] out@[j])@ == added@[j - 1]@,
                decreases n - i,
            {
                out.push(added[i].clone());
                i += 1;
            }
            out
        },
        None => copy_texts(added),
    }
}

/// The records of the statement `raw` found on page `page`.
pub fn main_records(raw: &str, page: usize, domain: &str, domain_id: &str) -> (out: Vec<
    Annotation,
>)
    ensures
        views(out@) == main_statement(raw@, page as nat, domain@, domain_id@),
        forall|i: int| 0 <= i < out@.len() ==> read_on((#[trigger] out@[i])@, page as nat),
{
    let cut = split_at_first(raw, WHEN);
    let segs = read_segments(cut.0);
    main_records_of(&segs, cut.1, raw, page, domain, domain_id)
}

/// The records of a statement whose primary clause has the segments `segs`
/// and whose qualifying clause is `tail`.
pub fn main_records_of(
    segs: &Vec<Segment>,
    tail: Option<&str>,
    raw: &str,
    page: usize,
    domain: &str,
    domain_id: &str,
) -> (out: Vec<Annotation>)
    ensures
        views(out@) == main_statement_of(
            segment_views(segs@),
            optional(tail),
            raw@,
            page as nat,
            domain@,
            domain_id@,
        ),
        forall|i: int| 0 <= i < out@.len() ==> read_on((#[trigger] out@[i])@, page as nat),
{
    let kept = settle(segs);
    let qualifier = read_qualifier(tail);
    let ghost model = segment_views(kept@);
    let ghost added = qualifier.clauses.deep_view();
    let mut out: Vec<Annotation> = Vec::new();
    let n = kept.len();
    let mut i: usize = 0;
    while i < n
        invariant
            i <= n,
            n == kept@.len(),
            model == segment_views(kept@),
            added == qualifier.clauses.deep_view(),
            forall|j: int| 0 <= j < out@.len() ==> read_on((#[trigger] out@[j])@, page as nat),
            views(out@) == segment_records(
                model,
                added,
                raw@,
                page as nat,
                domain@,
                domain_id@,
                i as int,
            ),
        decreases n - i,
    {
        let description = clauses_of(&kept[i], &qualifier.clauses);
        let record = make_record(
            domain,
            domain_id,
            kept[i].name.as_str(),
            page,
            description,
            false,
            raw,
        );
        out.push(record);
        i += 1;
    }
    let ghost first = views(out@);
    let ghost names = qualifier.names.deep_view();
    let m = qualifier.names.len();
    let mut k: usize = 0;
    while k < m
        invariant
            k <= m,
            m == qualifier.names@.len(),
            names == qualifier.names.deep_view(),
            forall|j: int| 0 <= j < out@.len() ==> read_on((#[trigger] out@[j])@, page as nat),
            views(out@) == first + code_records(
                names,
                qualifier.value@,
                raw@,
                page as nat,
                domain@,
                domain_id@,
                k as int,
            ),
        decreases m - k,
    {
        let name = qualifier.names[k].as_str();
        if ends_with(name, TESTCD) {
            let mut description: Vec<String> = Vec::new();
            description.push(concat3(name, EQUALS, qualifier.value.as_str()));
            assert(description.deep_view() =~= seq![clause(name@, qualifier.value@)]);
            let record = make_record(domain, domain_id, name, page, description, false, raw);
            let ghost before = views(out@);
            out.push(record);
            assert(views(out@) =~= before.push(record@));
        }
        k += 1;
    }
    out
}

/// The records of the supplemental statement `raw` found on page `page`.
pub fn supp_records(raw: &str, page: usize, domain: &str, domain_id: &str) -> (out: Vec<
    Annotation,
>)
    ensures
        views(out@) == supp_statement(raw@, page as nat, domain@, domain_id@),
        forall|i: int| 0 <= i < out@.len() ==> read_on((#[trigger] out@[i])@, page as nat),
{
    proof {
        lemma_separators();
    }
    let cut = split_at_first(raw, WHEN);
    let parts = split_text(cut.0, IN);
    if parts.len() < 2 {
        let out: Vec<Annotation> = Vec::new();
        return out;
    }
    let sides = split_text(parts[0], EQUAL_SIGN);
    let value: Option<&str> = if sides.len() > 1 {
        Some(sides[1])
    } else {
        None
    };
    let list = strip_condition(sides[0]);
    supp_records_of(list.as_str(), value, cut.1, raw, page, domain, domain_id)
}

/// The records of a supplemental statement that names the variables `list`,
/// gives them the value `value` and has the qualifying clause `tail`.
pub fn supp_records_of(
    list: &str,
    value: Option<&str>,
    tail: Option<&str>,
    raw: &str,
    page: usize,
    domain: &str,
    domain_id: &str,
) -> (out: Vec<Annotation>)
    ensures
        views(out@) == supp_statement_of(
            list@,
            optional(value),
            optional(tail),
            raw@,
            page as nat,
            domain@,
            domain_id@,
        ),
        forall|i: int| 0 <= i < out@.len() ==> read_on((#[trigger] out@[i])@, page as nat),
{
    proof {
        lemma_separators();
    }
    let mut out: Vec<Annotation> = Vec::new();
    let bare = replace(list, SLASH_WITH_BLANK, SLASH);
    let names = split_text(bare.as_str(), SLASH);
    let target = if domain.is_empty() {
        String::new()
    } else {
        concat3(SUPP, domain, "")
    };
    assert(target@ =~= supplemental(domain@)) by {
        reveal_strlit("");
    }
    let ghost wanted = names.deep_view();
    let n = names.len();
    let mut i: usize = 0;
    while i < n
        invariant
            i <= n,
            n == names@.len(),
            wanted == names.deep_view(),
            target@ == supplemental(domain@),
            forall|j: int| 0 <= j < out@.len() ==> read_on((#[trigger] out@[j])@, page as nat),
            views(out@) == supplement_records(
                wanted,
                optional(value),
                optional(tail),
                raw@,
                page as nat,
                domain@,
                domain_id@,
                i as int,
            ),
        decreases n - i,
    {
        let variable = trim(names[i]);
        let mut description: Vec<String> = Vec::new();
        match value {
            Some(v) => {
                description.push(concat3(variable, EQUALS, trim(v)));
            },
            None => {},
        }
        match tail {
            Some(t) => {
                description.push(t.to_owned());
            },
            None => {},
        }
        assert(description.deep_view() =~= supplement_clauses(
            wanted[i as int],
            optional(value),
            optional(tail),
        ));
        let record = make_record(
            target.as_str(),
            domain_id,
            variable,
            page,
            description,
            true,
            raw,
        );
        out.push(record);
        i += 1;
    }
    out
}

} // verus!
