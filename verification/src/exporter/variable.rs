//! The table of variables: one line for each variable, with its pages.

use crate::annotation::content::{Annotation, AnnotationView, PageDescriptionView};
use crate::exporter::utils::{
    page_list, page_numbers, pages_text, qval_annotation, qval_of, sheet, sheet_of, CRF,
    EMPTY_CELL, RELREC, SUPP,
};
use crate::text::{has_prefix, starts_with};
use vstd::prelude::*;
use vstd::string::*;

verus! {

/// One variable of one dataset, with the pages on which it was found.
#[derive(Debug, Clone)]
pub struct Variable {
    pub id: String,
    pub dataset: String,
    pub name: String,
    pub page: Vec<usize>,
}

/// The mathematical content of a [`Variable`].
pub struct VariableView {
    pub id: Seq<char>,
    pub dataset: Seq<char>,
    pub name: Seq<char>,
    pub page: Seq<nat>,
}

impl View for Variable {
    type V = VariableView;

    open spec fn view(&self) -> VariableView {
        VariableView {
            id: self.id@,
            dataset: self.dataset@,
            name: self.name@,
            page: page_numbers(self.page@),
        }
    }
}

/// The lines of the table of variables.
pub struct VariableSet {
    data: Vec<Variable>,
}

/// The first position from `from` on at which the ascending list `pages`
/// holds a page that is no less than `page`; its length where there is none.
pub open spec fn rank(pages: Seq<nat>, page: nat, from: int) -> int
    decreases pages.len() - from,
{
    if from < 0 || from >= pages.len() {
        pages.len() as int
    } else if pages[from] >= page {
        from
    } else {
        rank(pages, page, from + 1)
    }
}

/// The ascending list `pages` with the page `page` in its place, once.
pub open spec fn with_page(pages: Seq<nat>, page: nat) -> Seq<nat> {
    let at = rank(pages, page, 0);
    if at < pages.len() && pages[at] == page {
        pages
    } else {
        pages.insert(at, page)
    }
}

/// The ascending list `pages` with the first `upto` pages of `more`, each once.
pub open spec fn with_pages(pages: Seq<nat>, more: Seq<nat>, upto: int) -> Seq<nat>
    decreases upto,
{
    if upto <= 0 {
        pages
    } else {
        with_page(with_pages(pages, more, upto - 1), more[upto - 1])
    }
}

/// The pages of `a` and of `b` in ascending order, each once.
pub open spec fn page_union(a: Seq<nat>, b: Seq<nat>) -> Seq<nat> {
    with_pages(with_pages(Seq::empty(), a, a.len() as int), b, b.len() as int)
}

/// Whether the pages `pages` ascend without repetition.
pub open spec fn ascending(pages: Seq<nat>) -> bool {
    forall|i: int, j: int| 0 <= i < j < pages.len() ==> pages[i] < pages[j]
}

/// The pages of the entries of a record, in their order.
pub open spec fn pages_of(a: AnnotationView) -> Seq<nat> {
    a.page_description.map_values(|p: PageDescriptionView| p.page)
}

/// The position of the first line from position `from` on whose identity is `id`.
pub open spec fn variable_position(data: Seq<VariableView>, id: Seq<char>, from: int) -> Option<
    int,
>
    decreases data.len() - from,
{
    if from < 0 || from >= data.len() {
        None
    } else if data[from].id == id {
        Some(from)
    } else {
        variable_position(data, id, from + 1)
    }
}

/// Whether no two of the lines `data` have the same identity.
pub open spec fn unique_variables(data: Seq<VariableView>) -> bool {
    forall|i: int, j: int|
        0 <= i < j < data.len() ==> (#[trigger] data[i]).id != (#[trigger] data[j]).id
}

/// The lines after the variable of the record `a` was added: the
/// cross-reference variable makes no line; a variable that has a line takes
/// the dataset and the name of `a`, and its pages are joined with those of
/// `a`; any other variable gets a line with the pages of `a` as they stand.
pub open spec fn with_variable(data: Seq<VariableView>, a: AnnotationView) -> Seq<VariableView> {
    if a.variable == RELREC@ {
        data
    } else {
        match variable_position(data, a.id, 0) {
            Some(k) => data.update(
                k,
                VariableView {
                    id: a.id,
                    dataset: a.domain,
                    name: a.variable,
                    page: page_union(data[k].page, pages_of(a)),
                },
            ),
            None => data.push(
                VariableView { id: a.id, dataset: a.domain, name: a.variable, page: pages_of(a) },
            ),
        }
    }
}

/// The lines after the record `a` was added: a supplemental record adds its
/// qualifier value, any other record its variable.
pub open spec fn with_added(data: Seq<VariableView>, a: AnnotationView) -> Seq<VariableView> {
    if has_prefix(a.domain, SUPP@) {
        with_variable(data, qval_of(a))
    } else {
        with_variable(data, a)
    }
}

/// The lines after the first `upto` of the records `list` were added.
pub open spec fn with_all_added(
    data: Seq<VariableView>,
    list: Seq<AnnotationView>,
    upto: int,
) -> Seq<VariableView>
    decreases upto,
{
    if upto <= 0 {
        data
    } else {
        with_added(with_all_added(data, list, upto - 1), list[upto - 1])
    }
}

/// The header of the table.
pub open spec fn variable_header() -> Seq<Seq<char>> {
    seq![
        "Order  "@,
        "Dataset    "@,
        "Variable\t"@,
        "Label\t"@,
        "Data Type\t"@,
        "Length\t"@,
        "Significant Digits\t"@,
        "Format\t"@,
        "Mandatory\t"@,
        "Assigned Value\t"@,
        "Codelist\t"@,
        "Common\t"@,
        "Origin\t"@,
        "Source\t"@,
        "Pages  "@,
    ]
}

/// The row of a line.
pub open spec fn variable_row(v: VariableView) -> Seq<Seq<char>> {
    seq![
        EMPTY_CELL@,
        v.dataset,
        v.name,
        EMPTY_CELL@,
        EMPTY_CELL@,
        EMPTY_CELL@,
        EMPTY_CELL@,
        EMPTY_CELL@,
        EMPTY_CELL@,
        EMPTY_CELL@,
        EMPTY_CELL@,
        EMPTY_CELL@,
        CRF@,
        EMPTY_CELL@,
        page_list(v.page),
    ]
}

/// The rows of the lines `data`, in their order.
pub open spec fn variable_rows(data: Seq<VariableView>) -> Seq<Seq<Seq<char>>> {
    data.map_values(|v: VariableView| variable_row(v))
}

/// What `variable_position` finds is the first line of the identity.
pub proof fn lemma_variable_position(data: Seq<VariableView>, id: Seq<char>, from: int)
    requires
        0 <= from,
    ensures
        match variable_position(data, id, from) {
            Some(k) => {
                &&& from <= k < data.len()
                &&& data[k].id == id
                &&& forall|j: int| from <= j < k ==> (#[trigger] data[j]).id != id
            },
            None => forall|j: int| from <= j < data.len() ==> (#[trigger] data[j]).id != id,
        },
    decreases data.len() - from,
{
    if from < data.len() && data[from].id != id {
        lemma_variable_position(data, id, from + 1);
    }
}

/// Adding a variable keeps the identities apart: the line of a known
/// identity is renewed, and only a line of a new identity is added.
pub proof fn lemma_with_variable_unique(data: Seq<VariableView>, a: AnnotationView)
    requires
        unique_variables(data),
    ensures
        unique_variables(with_variable(data, a)),
{
    let out = with_variable(data, a);
    lemma_variable_position(data, a.id, 0);
    assert forall|i: int, j: int| 0 <= i < j < out.len() implies (#[trigger] out[i]).id != (
    #[trigger] out[j]).id by {
        if i < data.len() {
            assert(out[i].id == data[i].id);
        }
        if j < data.len() {
            assert(out[j].id == data[j].id);
        }
    }
}

/// Where `rank` points, what stands before is less and what stands there is no less.
pub proof fn lemma_rank(pages: Seq<nat>, page: nat, from: int)
    requires
        0 <= from <= pages.len(),
    ensures
        from <= rank(pages, page, from) <= pages.len(),
        forall|i: int| from <= i < rank(pages, page, from) ==> pages[i] < page,
        rank(pages, page, from) < pages.len() ==> pages[rank(pages, page, from)] >= page,
    decreases pages.len() - from,
{
    if from < pages.len() && pages[from] < page {
        lemma_rank(pages, page, from + 1);
    }
}

/// Putting a page into an ascending list keeps it ascending, and the list
/// then holds that page and what it held.
pub proof fn lemma_with_page(pages: Seq<nat>, page: nat)
    requires
        ascending(pages),
    ensures
        ascending(with_page(pages, page)),
        forall|p: nat|
            #![trigger with_page(pages, page).contains(p)]
            #![trigger pages.contains(p)]
            with_page(pages, page).contains(p) <==> (p == page || pages.contains(p)),
{
    lemma_rank(pages, page, 0);
    let at = rank(pages, page, 0);
    let out = with_page(pages, page);
    if !(at < pages.len() && pages[at] == page) {
        assert forall|p: nat| out.contains(p) <==> (p == page || pages.contains(p)) by {
            if p == page {
                assert(out[at] == page);
            }
            if pages.contains(p) {
                let i = choose|i: int| 0 <= i < pages.len() && pages[i] == p;
                let moved = if i < at { i } else { i + 1 };
                assert(out[moved] == pages[i]);
            }
        }
    }
}

/// Putting pages into an ascending list keeps it ascending, and the list
/// then holds those pages and what it held.
pub proof fn lemma_with_pages(pages: Seq<nat>, more: Seq<nat>, upto: int)
    requires
        ascending(pages),
        0 <= upto <= more.len(),
    ensures
        ascending(with_pages(pages, more, upto)),
        forall|p: nat|
            #![trigger with_pages(pages, more, upto).contains(p)]
            with_pages(pages, more, upto).contains(p) <==> (pages.contains(p) || more.take(
                upto,
            ).contains(p)),
    decreases upto,
{
    let now = more.take(upto);
    if upto > 0 {
        lemma_with_pages(pages, more, upto - 1);
        let before = with_pages(pages, more, upto - 1);
        lemma_with_page(before, more[upto - 1]);
        assert forall|p: nat|
            with_pages(pages, more, upto).contains(p) <==> (pages.contains(p) || now.contains(
                p,
            )) by {
            assert(with_page(before, more[upto - 1]).contains(p) <==> (p == more[upto - 1]
                || before.contains(p)));
            if p == more[upto - 1] {
                assert(now[upto - 1] == p);
            }
        }
    }
}

/// The union of two lists of pages ascends without repetition, and holds a
/// page if and only if one of the two lists holds it.
pub proof fn lemma_page_union(a: Seq<nat>, b: Seq<nat>)
    ensures
        ascending(page_union(a, b)),
        forall|p: nat|
            #![trigger page_union(a, b).contains(p)]
            page_union(a, b).contains(p) <==> (a.contains(p) || b.contains(p)),
{
    let none = Seq::<nat>::empty();
    lemma_with_pages(none, a, a.len() as int);
    let first = with_pages(none, a, a.len() as int);
    lemma_with_pages(first, b, b.len() as int);
    assert(a.take(a.len() as int) =~= a);
    assert(b.take(b.len() as int) =~= b);
}

/// Puts the page `page` into the ascending list `pages`.
fn put_page(pages: &mut Vec<usize>, page: usize)
    ensures
        page_numbers(final(pages)@) == with_page(page_numbers(old(pages)@), page as nat),
{
    let ghost model = page_numbers(pages@);
    let n = pages.len();
    let mut i: usize = 0;
    while i < n && pages[i] < page
        invariant
            i <= n,
            n == pages@.len(),
            model == page_numbers(pages@),
            rank(model, page as nat, 0) == rank(model, page as nat, i as int),
        decreases n - i,
    {
        i += 1;
    }
    if i < n && pages[i] == page {
    } else {
        pages.insert(i, page);
    }
}

/// Puts the pages `more` into the ascending list `pages`.
fn put_pages(pages: &mut Vec<usize>, more: &Vec<usize>)
    ensures
        page_numbers(final(pages)@) == with_pages(
            page_numbers(old(pages)@),
            page_numbers(more@),
            more@.len() as int,
        ),
{
    let ghost start = page_numbers(pages@);
    let ghost model = page_numbers(more@);
    let n = more.len();
    let mut i: usize = 0;
    while i < n
        invariant
            i <= n,
            n == more@.len(),
            model == page_numbers(more@),
            page_numbers(pages@) == with_pages(start, model, i as int),
        decreases n - i,
    {
        put_page(pages, more[i]);
        i += 1;
    }
}

/// The contents of a list of lines.
pub open spec fn variable_views(data: Seq<Variable>) -> Seq<VariableView> {
    data.map_values(|v: Variable| v@)
}

impl VariableSet {
    /// The lines, in the order in which they were first added.
    pub closed spec fn view(&self) -> Seq<VariableView> {
        variable_views(self.data@)
    }

    /// Whether no two lines of the table have the same identity.
    pub open spec fn wf(&self) -> bool {
        unique_variables(self@)
    }

    /// A table without lines.
    pub fn new() -> (out: VariableSet)
        ensures
            out@ == Seq::<VariableView>::empty(),
            out.wf(),
    {
        let out = VariableSet { data: Vec::new() };
        out
    }

    /// Adds each of the records `annotations`.
    pub fn add_annotations(&mut self, annotations: &[Annotation])
        requires
            old(self).wf(),
        ensures
            final(self).wf(),
            final(self)@ == with_all_added(
                old(self)@,
                annotations@.map_values(|a: Annotation| a@),
                annotations@.len() as int,
            ),
    {
        let ghost start = self@;
        let ghost list = annotations@.map_values(|a: Annotation| a@);
        let n = annotations.len();
        let mut i: usize = 0;
        while i < n
            invariant
                i <= n,
                n == annotations@.len(),
                list == annotations@.map_values(|a: Annotation| a@),
                self.wf(),
                self@ == with_all_added(start, list, i as int),
            decreases n - i,
        {
            self.add(&annotations[i]);
            i += 1;
        }
    }

    /// Adds the record `annotation`.
    pub fn add(&mut self, annotation: &Annotation)
        requires
            old(self).wf(),
        ensures
            final(self).wf(),
            final(self)@ == with_added(old(self)@, annotation@),
    {
        let is_supp = starts_with(annotation.domain.as_str(), SUPP);
        if is_supp {
            self.add_supp_variable(annotation);
        } else {
            self.add_variable(annotation);
        }
    }

    /// Adds the qualifier value of the supplemental record `annotation`.
    pub fn add_supp_variable(&mut self, annotation: &Annotation)
        requires
            old(self).wf(),
        ensures
            final(self).wf(),
            final(self)@ == with_variable(old(self)@, qval_of(annotation@)),
    {
        let qval = qval_annotation(annotation);
        self.add_variable(&qval);
    }

    /// The position of the line whose identity is `id`.
    fn find(&self, id: &String) -> (out: Option<usize>)
        ensures
            match out {
                Some(k) => variable_position(self@, id@, 0) == Some(k as int) && k
                    < self.data@.len(),
                None => variable_position(self@, id@, 0) is None,
            },
    {
        let n = self.data.len();
        let mut i: usize = 0;
        while i < n
            invariant
                i <= n,
                n == self.data@.len(),
                variable_position(self@, id@, 0) == variable_position(self@, id@, i as int),
            decreases n - i,
        {
            if self.data[i].id == *id {
                return Some(i);
            }
            i += 1;
        }
        None
    }

    /// Adds the variable of the record `annotation`.
    pub fn add_variable(&mut self, annotation: &Annotation)
        requires
            old(self).wf(),
        ensures
            final(self).wf(),
            final(self)@ == with_variable(old(self)@, annotation@),
    {
        if annotation.variable == RELREC.to_owned() {
            return ;
        }
        let mut new_pages: Vec<usize> = Vec::new();
        let n = annotation.page_description.len();
        let mut i: usize = 0;
        while i < n
            invariant
                i <= n,
                n == annotation.page_description@.len(),
                self.wf(),
                new_pages@.len() == i,
                forall|j: int|
                    0 <= j < i ==> (#[trigger] new_pages@[j]) as nat
                        == annotation.page_description@[j]@.page,
            decreases n - i,
        {
            new_pages.push(annotation.page_description[i].page);
            i += 1;
        }
        proof {
            assert(page_numbers(new_pages@) =~= pages_of(annotation@));
            lemma_with_variable_unique(self@, annotation@);
        }
        let ghost before = self@;
        match self.find(&annotation.id) {
            Some(k) => {
                let mut pages: Vec<usize> = Vec::new();
                proof {
                    assert(page_numbers(pages@) =~= Seq::<nat>::empty());
                }
                put_pages(&mut pages, &self.data[k].page);
                put_pages(&mut pages, &new_pages);
                let line = Variable {
                    id: annotation.id.clone(),
                    dataset: annotation.domain.clone(),
                    name: annotation.variable.clone(),
                    page: pages,
                };
                self.data.set(k, line);
                proof {
                    assert(self@ =~= before.update(k as int, line@));
                }
            },
            None => {
                let line = Variable {
                    id: annotation.id.clone(),
                    dataset: annotation.domain.clone(),
                    name: annotation.variable.clone(),
                    page: new_pages,
                };
                self.data.push(line);
                proof {
                    assert(self@ =~= before.push(line@));
                }
            },
        }
    }

    /// The sheet of the table: the header, then the rows by dataset and variable.
    pub fn export(&self) -> (out: Vec<Vec<String>>)
        ensures
            out.deep_view() == sheet_of(variable_header(), variable_rows(self@), 1, 2),
    {
        let mut rows: Vec<Vec<String>> = Vec::new();
        let n = self.data.len();
        let mut i: usize = 0;
        while i < n
            invariant
                i <= n,
                n == self.data@.len(),
                rows@.len() == i,
                forall|j: int|
                    0 <= j < i ==> (#[trigger] rows@[j]).deep_view() == variable_row(self@[j]),
            decreases n - i,
        {
            let line = &self.data[i];
            let mut row: Vec<String> = Vec::new();
            row.push(EMPTY_CELL.to_owned());
            row.push(line.dataset.clone());
            row.push(line.name.clone());
            row.push(EMPTY_CELL.to_owned());
            row.push(EMPTY_CELL.to_owned());
            row.push(EMPTY_CELL.to_owned());
            row.push(EMPTY_CELL.to_owned());
            row.push(EMPTY_CELL.to_owned());
            row.push(EMPTY_CELL.to_owned());
            row.push(EMPTY_CELL.to_owned());
            row.push(EMPTY_CELL.to_owned());
            row.push(EMPTY_CELL.to_owned());
            row.push(CRF.to_owned());
            row.push(EMPTY_CELL.to_owned());
            row.push(pages_text(&line.page));
            rows.push(row);
            i += 1;
        }
        proof {
            assert(rows.deep_view() =~= variable_rows(self@));
        }
        sheet(header(), &rows, 1, 2)
    }
}

/// The header of the table of variables.
pub fn header() -> (out: Vec<String>)
    ensures
        out.deep_view() == variable_header(),
{
    let mut out: Vec<String> = Vec::new();
    out.push("Order  ".to_owned());
    out.push("Dataset    ".to_owned());
    out.push("Variable\t".to_owned());
    out.push("Label\t".to_owned());
    out.push("Data Type\t".to_owned());
    out.push("Length\t".to_owned());
    out.push("Significant Digits\t".to_owned());
    out.push("Format\t".to_owned());
    out.push("Mandatory\t".to_owned());
    out.push("Assigned Value\t".to_owned());
    out.push("Codelist\t".to_owned());
    out.push("Common\t".to_owned());
    out.push("Origin\t".to_owned());
    out.push("Source\t".to_owned());
    out.push("Pages  ".to_owned());
    out
}

} // verus!
