//! What the tables share: their fixed words, the entries that collect pages,
//! and the layout of a sheet.

use crate::annotation::content::{
    copy_texts, Annotation, AnnotationView, PageDescription, PageDescriptionView,
};
use crate::order::{
    arranged, is_sorting, key_views, positions, sorted_by, sorted_order, sorting_of,
};
use crate::text::{
    concat3, contains, decimal, decimal_text, ends_with, has_infix, has_suffix, joined,
};
use vstd::prelude::*;
use vstd::string::*;

verus! {

pub const RELREC: &'static str = "RELREC";

pub const SUPP: &'static str = "SUPP";

pub const QVAL: &'static str = "QVAL";

pub const QNAM: &'static str = "QNAM = ";

pub const EQ: &'static str = "EQ";

pub const EQ_SYMBOL: &'static str = "=";

pub const ORRES: &'static str = "ORRES";

pub const TESTCD: &'static str = "TESTCD";

pub const EMPTY_CELL: &'static str = "";

pub const CRF: &'static str = "CRF";

pub const DASH: &'static str = "-";

pub const BLANK: &'static str = " ";

pub const VARIABLE_SHEET_NAME: &'static str = "Variables";

pub const VALUE_SHEET_NAME: &'static str = "ValueLevel";

pub const RAW_SHEET_NAME: &'static str = "Raw";

/// One line of a table in the making: what it says, and the pages on which
/// it was found.
pub struct Entry {
    pub id: Seq<char>,
    pub dataset: Seq<char>,
    pub name: Seq<char>,
    pub description: Seq<char>,
    pub page: Seq<nat>,
}

/// The pages that a list of page numbers holds.
pub open spec fn page_numbers(pages: Seq<usize>) -> Seq<nat> {
    pages.map_values(|p: usize| p as nat)
}

/// A line of a table that is found by its identity and collects pages.
pub trait Keyed: Sized {
    /// What the line holds.
    spec fn entry(&self) -> Entry;

    /// Tells whether the identity of the line is `id`.
    fn has_id(&self, id: &String) -> (r: bool)
        ensures
            r == (self.entry().id == id@),
    ;

    /// The line with one more page.
    fn with_page(&self, page: usize) -> (out: Self)
        ensures
            out.entry() == (Entry { page: self.entry().page.push(page as nat), ..self.entry() }),
    ;

    /// A line found on one page.
    fn first(id: String, dataset: &String, name: &String, description: &str, page: usize) -> (out:
        Self)
        ensures
            out.entry() == (Entry {
                id: id@,
                dataset: dataset@,
                name: name@,
                description: description@,
                page: seq![page as nat],
            }),
    ;
}

/// What a list of lines holds.
pub open spec fn entries<T: Keyed>(data: Seq<T>) -> Seq<Entry> {
    data.map_values(|e: T| e.entry())
}

/// The position of the first line from position `from` on whose identity is `id`.
pub open spec fn entry_position(data: Seq<Entry>, id: Seq<char>, from: int) -> Option<int>
    decreases data.len() - from,
{
    if from < 0 || from >= data.len() {
        None
    } else if data[from].id == id {
        Some(from)
    } else {
        entry_position(data, id, from + 1)
    }
}

/// The lines after the line `seen`, found on the page `page`, was recorded:
/// the line of its identity takes the page, or, where there is none, the
/// line is added at the end.
pub open spec fn recorded(data: Seq<Entry>, seen: Entry) -> Seq<Entry> {
    match entry_position(data, seen.id, 0) {
        Some(k) => data.update(k, Entry { page: data[k].page + seen.page, ..data[k] }),
        None => data.push(seen),
    }
}

/// Whether no two of the lines `data` have the same identity.
pub open spec fn unique_ids(data: Seq<Entry>) -> bool {
    forall|i: int, j: int|
        0 <= i < j < data.len() ==> (#[trigger] data[i]).id != (#[trigger] data[j]).id
}

/// What `entry_position` finds is the first line of the identity.
pub proof fn lemma_entry_position(data: Seq<Entry>, id: Seq<char>, from: int)
    requires
        0 <= from,
    ensures
        match entry_position(data, id, from) {
            Some(k) => {
                &&& from <= k < data.len()
                &&& data[k].id == id
                &&& forall|j: int| from <= j < k ==> (#[trigger] data[j]).id != id
            },
            None => forall|j: int| from <= j < data.len() ==> (#[trigger] data[j]).id != id,
        },
    decreases data.len() - from,
{
    if from < data.len() && data[from].id != id {
        lemma_entry_position(data, id, from + 1);
    }
}

/// Recording a line keeps the identities apart: the line of a known identity
/// takes the page, and only a line of a new identity is added.
pub proof fn lemma_recorded_unique(data: Seq<Entry>, seen: Entry)
    requires
        unique_ids(data),
    ensures
        unique_ids(recorded(data, seen)),
{
    let out = recorded(data, seen);
    lemma_entry_position(data, seen.id, 0);
    assert forall|i: int, j: int| 0 <= i < j < out.len() implies (#[trigger] out[i]).id != (
    #[trigger] out[j]).id by {
        if i < data.len() {
            assert(out[i].id == data[i].id);
        }
        if j < data.len() {
            assert(out[j].id == data[j].id);
        }
    }
}

/// Whether the clause `clause` of a record of the variable `variable` makes
/// a line: where results alone count, a clause of a result variable does so
/// only where it names a test code.
pub open spec fn counts(variable: Seq<char>, clause: Seq<char>, results: bool) -> bool {
    !(results && has_suffix(variable, ORRES@) && !has_infix(clause, TESTCD@))
}

/// The line of the clause `clause` of the record `a`, found on the page `page`.
pub open spec fn clause_entry(a: AnnotationView, page: nat, clause: Seq<char>) -> Entry {
    Entry {
        id: a.id + DASH@ + clause,
        dataset: a.domain,
        name: a.variable,
        description: clause,
        page: seq![page],
    }
}

/// The line of the record `a` on a page on which nothing is said of it.
pub open spec fn bare_entry(a: AnnotationView, page: nat) -> Entry {
    Entry {
        id: a.id,
        dataset: a.domain,
        name: a.variable,
        description: Seq::empty(),
        page: seq![page],
    }
}

/// The lines after the first `upto` clauses of one page entry of the record
/// `a` were recorded.
pub open spec fn with_clauses_of(
    data: Seq<Entry>,
    a: AnnotationView,
    page: nat,
    clauses: Seq<Seq<char>>,
    results: bool,
    upto: int,
) -> Seq<Entry>
    decreases upto,
{
    if upto <= 0 {
        data
    } else {
        let before = with_clauses_of(data, a, page, clauses, results, upto - 1);
        if counts(a.variable, clauses[upto - 1], results) {
            recorded(before, clause_entry(a, page, clauses[upto - 1]))
        } else {
            before
        }
    }
}

/// The lines after the page entry `seen` of the record `a` was recorded: one
/// line for the page where the entry holds no clause, one for each clause
/// that counts where it holds some.
pub open spec fn with_page_of(
    data: Seq<Entry>,
    a: AnnotationView,
    seen: PageDescriptionView,
    results: bool,
) -> Seq<Entry> {
    if seen.description.len() == 0 {
        recorded(data, bare_entry(a, seen.page))
    } else {
        with_clauses_of(
            data,
            a,
            seen.page,
            seen.description,
            results,
            seen.description.len() as int,
        )
    }
}

/// The lines after the first `upto` page entries of the record `a` were recorded.
pub open spec fn with_pages_of(
    data: Seq<Entry>,
    a: AnnotationView,
    results: bool,
    upto: int,
) -> Seq<Entry>
    decreases upto,
{
    if upto <= 0 {
        data
    } else {
        with_page_of(
            with_pages_of(data, a, results, upto - 1),
            a,
            a.page_description[upto - 1],
            results,
        )
    }
}

/// The lines after the record `a` was recorded.
pub open spec fn with_record(data: Seq<Entry>, a: AnnotationView, results: bool) -> Seq<Entry> {
    with_pages_of(data, a, results, a.page_description.len() as int)
}

/// The qualifier-value record that stands for the supplemental record
/// `source`: on each of its pages it names the variable of `source`.
pub open spec fn qval_of(source: AnnotationView) -> AnnotationView {
    AnnotationView {
        id: source.domain + DASH@ + QVAL@,
        domain: source.domain,
        domain_id: Seq::empty(),
        variable: QVAL@,
        page_description: source.page_description.map_values(
            |p: PageDescriptionView|
                PageDescriptionView { page: p.page, description: seq![QNAM@ + source.variable] },
        ),
        supp: source.supp,
        raw: source.raw,
    }
}

/// The text of a list of pages: their numbers, a blank between each two.
pub open spec fn page_list(pages: Seq<nat>) -> Seq<char> {
    joined(pages.map_values(|p: nat| decimal(p)), BLANK@)
}

/// The keys of the rows `rows`: the cells in the columns `first` and `second`.
pub open spec fn row_keys(rows: Seq<Seq<Seq<char>>>, first: int, second: int) -> Seq<
    (Seq<char>, Seq<char>),
> {
    rows.map_values(|r: Seq<Seq<char>>| (r[first], r[second]))
}

/// The sheet of the rows `rows`: the header, then the rows by ascending
/// key, rows of equal keys in the order in which they stand in `rows`. By
/// `lemma_sorted_by` it holds each row once.
pub open spec fn sheet_of(
    header: Seq<Seq<char>>,
    rows: Seq<Seq<Seq<char>>>,
    first: int,
    second: int,
) -> Seq<Seq<Seq<char>>> {
    seq![header] + sorted_by(rows, row_keys(rows, first, second))
}

/// Finds the line whose identity is `id`.
pub fn find_entry<T: Keyed>(data: &Vec<T>, id: &String) -> (out: Option<usize>)
    ensures
        match out {
            Some(k) => entry_position(entries(data@), id@, 0) == Some(k as int) && k < data@.len(),
            None => entry_position(entries(data@), id@, 0) is None,
        },
{
    let n = data.len();
    let mut i: usize = 0;
    while i < n
        invariant
            i <= n,
            n == data@.len(),
            entry_position(entries(data@), id@, 0) == entry_position(
                entries(data@),
                id@,
                i as int,
            ),
        decreases n - i,
    {
        if data[i].has_id(id) {
            return Some(i);
        }
        i += 1;
    }
    None
}

/// Records a line found on the page `page`.
pub fn record<T: Keyed>(
    data: &mut Vec<T>,
    id: String,
    dataset: &String,
    name: &String,
    description: &str,
    page: usize,
)
    ensures
        entries(final(data)@) == recorded(
            entries(old(data)@),
            Entry {
                id: id@,
                dataset: dataset@,
                name: name@,
                description: description@,
                page: seq![page as nat],
            },
        ),
        unique_ids(entries(old(data)@)) ==> unique_ids(entries(final(data)@)),
{
    let ghost before = entries(data@);
    let ghost seen = Entry {
        id: id@,
        dataset: dataset@,
        name: name@,
        description: description@,
        page: seq![page as nat],
    };
    match find_entry(data, &id) {
        Some(k) => {
            let next = data[k].with_page(page);
            data.set(k, next);
            proof {
                assert(before[k as int].page + seq![page as nat] =~= before[k as int].page.push(
                    page as nat,
                ));
                assert(entries(data@) =~= before.update(k as int, next.entry()));
            }
        },
        None => {
            let line = T::first(id, dataset, name, description, page);
            data.push(line);
            proof {
                assert(entries(data@) =~= before.push(line.entry()));
            }
        },
    }
    proof {
        assert(entries(data@) == recorded(before, seen));
        if unique_ids(before) {
            lemma_recorded_unique(before, seen);
        }
    }
}

/// Records what the record `annotation` says, page by page.
pub fn record_annotation<T: Keyed>(data: &mut Vec<T>, annotation: &Annotation, results: bool)
    ensures
        entries(final(data)@) == with_record(entries(old(data)@), annotation@, results),
        unique_ids(entries(old(data)@)) ==> unique_ids(entries(final(data)@)),
{
    let ghost start = entries(data@);
    let ghost a = annotation@;
    let n = annotation.page_description.len();
    let mut i: usize = 0;
    while i < n
        invariant
            i <= n,
            n == annotation.page_description@.len(),
            a == annotation@,
            entries(data@) == with_pages_of(start, a, results, i as int),
            unique_ids(start) ==> unique_ids(entries(data@)),
        decreases n - i,
    {
        let seen = &annotation.page_description[i];
        let m = seen.description.len();
        if m == 0 {
            record(
                data,
                annotation.id.clone(),
                &annotation.domain,
                &annotation.variable,
                EMPTY_CELL,
                seen.page,
            );
            proof {
                reveal_strlit("");
                assert(EMPTY_CELL@ =~= Seq::<char>::empty());
            }
        } else {
            let ghost mid = entries(data@);
            let ghost clauses = seen@.description;
            let mut k: usize = 0;
            while k < m
                invariant
                    k <= m,
                    m == seen.description@.len(),
                    a == annotation@,
                    clauses == seen@.description,
                    unique_ids(start) ==> unique_ids(entries(data@)),
                    entries(data@) == with_clauses_of(
                        mid,
                        a,
                        seen@.page,
                        clauses,
                        results,
                        k as int,
                    ),
                decreases m - k,
            {
                let value = &seen.description[k];
                let skipped = results && ends_with(annotation.variable.as_str(), ORRES)
                    && !contains(value.as_str(), TESTCD);
                if !skipped {
                    record(
                        data,
                        concat3(annotation.id.as_str(), DASH, value.as_str()),
                        &annotation.domain,
                        &annotation.variable,
                        value.as_str(),
                        seen.page,
                    );
                }
                k += 1;
            }
        }
        i += 1;
    }
}

/// The qualifier-value record that stands for the supplemental record `source`.
pub fn qval_annotation(source: &Annotation) -> (out: Annotation)
    ensures
        out@ == qval_of(source@),
{
    let mut page_description: Vec<PageDescription> = Vec::new();
    let n = source.page_description.len();
    let mut i: usize = 0;
    while i < n
        invariant
            i <= n,
            n == source.page_description@.len(),
            page_description@.len() == i,
            forall|j: int|
                0 <= j < i ==> (#[trigger] page_description@[j])@ == (PageDescriptionView {
                    page: source.page_description@[j]@.page,
                    description: seq![QNAM@ + source.variable@],
                }),
        decreases n - i,
    {
        let mut description: Vec<String> = Vec::new();
        description.push(concat3(QNAM, source.variable.as_str(), EMPTY_CELL));
        proof {
            reveal_strlit("");
            assert(description.deep_view() =~= seq![QNAM@ + source.variable@]);
        }
        page_description.push(
            PageDescription { page: source.page_description[i].page, description },
        );
        i += 1;
    }
    let out = Annotation {
        id: concat3(source.domain.as_str(), DASH, QVAL),
        domain_id: String::new(),
        domain: source.domain.clone(),
        variable: QVAL.to_owned(),
        page_description,
        raw: source.raw.clone(),
        supp: source.supp,
    };
    proof {
        assert(out@.page_description =~= qval_of(source@).page_description);
    }
    out
}

/// A copy of a list of pages.
pub fn copy_pages(pages: &Vec<usize>) -> (out: Vec<usize>)
    ensures
        out@ == pages@,
{
    let mut out: Vec<usize> = Vec::new();
    let n = pages.len();
    let mut i: usize = 0;
    while i < n
        invariant
            i <= n,
            n == pages@.len(),
            out@ == pages@.take(i as int),
        decreases n - i,
    {
        out.push(pages[i]);
        i += 1;
    }
    out
}

/// The lines after the first `upto` of the records `list` were recorded.
pub open spec fn with_records(data: Seq<Entry>, list: Seq<AnnotationView>, upto: int) -> Seq<Entry>
    decreases upto,
{
    if upto <= 0 {
        data
    } else {
        with_record(with_records(data, list, upto - 1), list[upto - 1], false)
    }
}

/// Records what each of the records `annotations` says.
pub fn record_annotations<T: Keyed>(data: &mut Vec<T>, annotations: &[Annotation])
    ensures
        entries(final(data)@) == with_records(
            entries(old(data)@),
            annotations@.map_values(|a: Annotation| a@),
            annotations@.len() as int,
        ),
        unique_ids(entries(old(data)@)) ==> unique_ids(entries(final(data)@)),
{
    let ghost start = entries(data@);
    let ghost list = annotations@.map_values(|a: Annotation| a@);
    let n = annotations.len();
    let mut i: usize = 0;
    while i < n
        invariant
            i <= n,
            n == annotations@.len(),
            list == annotations@.map_values(|a: Annotation| a@),
            entries(data@) == with_records(start, list, i as int),
            unique_ids(start) ==> unique_ids(entries(data@)),
        decreases n - i,
    {
        record_annotation(data, &annotations[i], false);
        i += 1;
    }
}

/// The text of a list of pages.
pub fn pages_text(pages: &Vec<usize>) -> (out: String)
    ensures
        out@ == page_list(page_numbers(pages@)),
{
    let ghost texts = page_numbers(pages@).map_values(|p: nat| decimal(p));
    let mut out = String::new();
    let n = pages.len();
    let mut i: usize = 0;
    while i < n
        invariant
            i <= n,
            n == pages@.len(),
            texts == page_numbers(pages@).map_values(|p: nat| decimal(p)),
            out@ == joined(texts.take(i as int), BLANK@),
        decreases n - i,
    {
        if i > 0 {
            out.append(BLANK);
        }
        let number = decimal_text(pages[i]);
        out.append(number.as_str());
        proof {
            let now = texts.take(i + 1);
            assert(now.drop_last() =~= texts.take(i as int));
        }
        i += 1;
    }
    proof {
        assert(texts.take(n as int) =~= texts);
    }
    out
}

/// Lays out a sheet: the header, then the rows sorted by the cells in the
/// columns `first` and `second`.
pub fn sheet(header: Vec<String>, rows: &Vec<Vec<String>>, first: usize, second: usize) -> (out:
    Vec<Vec<String>>)
    requires
        forall|i: int|
            0 <= i < rows@.len() ==> first < (#[trigger] rows@[i])@.len() && second
                < rows@[i]@.len(),
    ensures
        out.deep_view() == sheet_of(
            header.deep_view(),
            rows.deep_view(),
            first as int,
            second as int,
        ),
        is_sorting(
            sorting_of(row_keys(rows.deep_view(), first as int, second as int)),
            row_keys(rows.deep_view(), first as int, second as int),
        ),
{
    let n = rows.len();
    let ghost model = rows.deep_view();
    let mut keys: Vec<(String, String)> = Vec::new();
    let mut i: usize = 0;
    while i < n
        invariant
            i <= n,
            n == rows@.len(),
            model == rows.deep_view(),
            forall|i: int|
                0 <= i < rows@.len() ==> first < (#[trigger] rows@[i])@.len() && second
                    < rows@[i]@.len(),
            keys@.len() == i,
            forall|j: int|
                0 <= j < i ==> (#[trigger] keys@[j]).0@ == model[j][first as int] && keys@[j].1@
                    == model[j][second as int],
        decreases n - i,
    {
        keys.push((rows[i][first].clone(), rows[i][second].clone()));
        i += 1;
    }
    assert(key_views(keys@) =~= row_keys(model, first as int, second as int));
    let order = sorted_order(&keys);
    let ghost places = positions(order@);
    let mut out: Vec<Vec<String>> = Vec::new();
    out.push(header);
    let mut k: usize = 0;
    while k < n
        invariant
            k <= n,
            n == rows@.len(),
            n == order@.len(),
            model == rows.deep_view(),
            places == positions(order@),
            is_sorting(places, row_keys(model, first as int, second as int)),
            out@.len() == k + 1,
            out@[0].deep_view() == header.deep_view(),
            forall|j: int| 1 <= j <= k ==> (#[trigger] out@[j]).deep_view() == model[places[j - 1]],
        decreases n - k,
    {
        assert(places[k as int] == order@[k as int]);
        out.push(copy_texts(&rows[order[k]]));
        k += 1;
    }
    proof {
        let want = seq![header.deep_view()] + arranged(model, places);
        assert(out.deep_view() =~= want);
    }
    out
}

} // verus!
