//! The table of value-level clauses: the clauses of result variables that
//! name a test code, and the qualifier values of supplemental datasets.

use crate::annotation::content::{Annotation, AnnotationView};
use crate::exporter::utils::{
    copy_pages, entries, page_list, page_numbers, pages_text, qval_annotation, qval_of,
    record_annotation, sheet, sheet_of, unique_ids, with_record, Entry, Keyed, CRF, EMPTY_CELL,
    EQ, EQ_SYMBOL, ORRES, SUPP,
};
use crate::text::{
    ends_with, has_prefix, has_suffix, replace, replaced, starts_with, trim, trimmed,
};
use vstd::prelude::*;
use vstd::string::*;

verus! {

/// One value-level clause of one variable, with the pages on which it was found.
#[derive(Debug, Clone)]
pub struct Value {
    pub id: String,
    pub dataset: String,
    pub variable: String,
    pub description: String,
    pub page: Vec<usize>,
}

impl Keyed for Value {
    open spec fn entry(&self) -> Entry {
        Entry {
            id: self.id@,
            dataset: self.dataset@,
            name: self.variable@,
            description: self.description@,
            page: page_numbers(self.page@),
        }
    }

    fn has_id(&self, id: &String) -> (r: bool) {
        self.id == *id
    }

    fn with_page(&self, page: usize) -> (out: Self) {
        let mut pages = copy_pages(&self.page);
        pages.push(page);
        let out = Value {
            id: self.id.clone(),
            dataset: self.dataset.clone(),
            variable: self.variable.clone(),
            description: self.description.clone(),
            page: pages,
        };
        proof {
            assert(out.entry().page =~= self.entry().page.push(page as nat));
        }
        out
    }

    fn first(id: String, dataset: &String, name: &String, description: &str, page: usize) -> (out:
        Self) {
        let mut pages: Vec<usize> = Vec::new();
        pages.push(page);
        let out = Value {
            id,
            dataset: dataset.clone(),
            variable: name.clone(),
            description: description.to_owned(),
            page: pages,
        };
        proof {
            assert(out.entry().page =~= seq![page as nat]);
        }
        out
    }
}

/// The lines of the table of value-level clauses.
pub struct ValueSet {
    data: Vec<Value>,
}

/// Whether the record `a` has value-level clauses: it is of a supplemental
/// dataset, or of a result variable.
pub open spec fn needs_process(a: AnnotationView) -> bool {
    has_prefix(a.domain, SUPP@) || has_suffix(a.variable, ORRES@)
}

/// The lines after the record `a` was added: a supplemental record adds its
/// qualifier value, a result variable its clauses that name a test code, and
/// any other record nothing.
pub open spec fn with_value(data: Seq<Entry>, a: AnnotationView) -> Seq<Entry> {
    if !needs_process(a) {
        data
    } else if has_prefix(a.domain, SUPP@) {
        with_record(data, qval_of(a), true)
    } else {
        with_record(data, a, true)
    }
}

/// The lines after the first `upto` of the records `list` were added.
pub open spec fn with_values(data: Seq<Entry>, list: Seq<AnnotationView>, upto: int) -> Seq<Entry>
    decreases upto,
{
    if upto <= 0 {
        data
    } else {
        with_value(with_values(data, list, upto - 1), list[upto - 1])
    }
}

/// The header of the table.
pub open spec fn value_header() -> Seq<Seq<char>> {
    seq![
        "Order\t"@,
        "Dataset\t"@,
        "Variable\t"@,
        "Where Clause\t"@,
        "Label\t"@,
        "Data Type\t"@,
        "Length\t"@,
        "Significant Digits\t"@,
        "Format\t"@,
        "Mandatory\t"@,
        "Assigned Value\t"@,
        "Codelist\t"@,
        "Origin\t"@,
        "Source\t"@,
        "Pages\t"@,
    ]
}

/// The row of a line: its where clause is its clause with `EQ` for each equal sign.
pub open spec fn value_row(e: Entry) -> Seq<Seq<char>> {
    seq![
        EMPTY_CELL@,
        e.dataset,
        e.name,
        replaced(e.description, EQ_SYMBOL@, EQ@),
        EMPTY_CELL@,
        EMPTY_CELL@,
        EMPTY_CELL@,
        EMPTY_CELL@,
        EMPTY_CELL@,
        EMPTY_CELL@,
        EMPTY_CELL@,
        EMPTY_CELL@,
        CRF@,
        EMPTY_CELL@,
        page_list(e.page),
    ]
}

/// The rows of those of the first `upto` lines that hold a clause, in their order.
pub open spec fn value_rows(data: Seq<Entry>, upto: int) -> Seq<Seq<Seq<char>>>
    decreases upto,
{
    if upto <= 0 {
        Seq::empty()
    } else if trimmed(data[upto - 1].description).len() == 0 {
        value_rows(data, upto - 1)
    } else {
        value_rows(data, upto - 1).push(value_row(data[upto - 1]))
    }
}

impl ValueSet {
    /// The lines, in the order in which they were first recorded.
    pub closed spec fn view(&self) -> Seq<Entry> {
        entries(self.data@)
    }

    /// Whether no two lines of the table have the same identity.
    pub open spec fn wf(&self) -> bool {
        unique_ids(self@)
    }

    /// A table without lines.
    pub fn new() -> (out: ValueSet)
        ensures
            out@ == Seq::<Entry>::empty(),
            out.wf(),
    {
        let out = ValueSet { data: Vec::new() };
        out
    }

    /// Adds each of the records `annotations`.
    pub fn add_annotations(&mut self, annotations: &[Annotation])
        requires
            old(self).wf(),
        ensures
            final(self).wf(),
            final(self)@ == with_values(
                old(self)@,
                annotations@.map_values(|a: Annotation| a@),
                annotations@.len() as int,
            ),
    {
        let ghost start = self@;
        let ghost list = annotations@.map_values(|a: Annotation| a@);
        let n = annotations.len();
        let mut i: usize = 0;
        while i < n
            invariant
                i <= n,
                n == annotations@.len(),
                list == annotations@.map_values(|a: Annotation| a@),
                self.wf(),
                self@ == with_values(start, list, i as int),
            decreases n - i,
        {
            self.add(&annotations[i]);
            i += 1;
        }
    }

    /// Adds the record `annotation`.
    pub fn add(&mut self, annotation: &Annotation)
        requires
            old(self).wf(),
        ensures
            final(self).wf(),
            final(self)@ == with_value(old(self)@, annotation@),
    {
        if annotation_need_process(annotation) {
            let is_supp = starts_with(annotation.domain.as_str(), SUPP);
            if is_supp {
                self.add_supp_variable(annotation);
            } else {
                self.add_variable(annotation);
            }
        }
    }

    /// Adds the qualifier value of the supplemental record `annotation`.
    pub fn add_supp_variable(&mut self, annotation: &Annotation)
        requires
            old(self).wf(),
        ensures
            final(self).wf(),
            final(self)@ == with_record(old(self)@, qval_of(annotation@), true),
    {
        let qval = qval_annotation(annotation);
        self.add_variable(&qval);
    }

    /// Adds the clauses of the record `annotation`; of a result variable,
    /// those that name a test code.
    pub fn add_variable(&mut self, annotation: &Annotation)
        requires
            old(self).wf(),
        ensures
            final(self).wf(),
            final(self)@ == with_record(old(self)@, annotation@, true),
    {
        record_annotation(&mut self.data, annotation, true);
    }

    /// The sheet of the table: the header, then the rows of the lines that
    /// hold a clause, by dataset and variable.
    pub fn export(&self) -> (out: Vec<Vec<String>>)
        ensures
            out.deep_view() == sheet_of(
                value_header(),
                value_rows(self@, self@.len() as int),
                1,
                2,
            ),
    {
        let mut rows: Vec<Vec<String>> = Vec::new();
        let n = self.data.len();
        let mut i: usize = 0;
        while i < n
            invariant
                i <= n,
                n == self.data@.len(),
                rows.deep_view() == value_rows(self@, i as int),
                forall|j: int| 0 <= j < rows@.len() ==> (#[trigger] rows@[j])@.len() == 15,
            decreases n - i,
        {
            let line = &self.data[i];
            if !trim(line.description.as_str()).is_empty() {
                let mut row: Vec<String> = Vec::new();
                row.push(EMPTY_CELL.to_owned());
                row.push(line.dataset.clone());
                row.push(line.variable.clone());
                proof {
                    reveal_strlit("=");
                }
                row.push(replace(line.description.as_str(), EQ_SYMBOL, EQ));
                row.push(EMPTY_CELL.to_owned());
                row.push(EMPTY_CELL.to_owned());
                row.push(EMPTY_CELL.to_owned());
                row.push(EMPTY_CELL.to_owned());
                row.push(EMPTY_CELL.to_owned());
                row.push(EMPTY_CELL.to_owned());
                row.push(EMPTY_CELL.to_owned());
                row.push(EMPTY_CELL.to_owned());
                row.push(CRF.to_owned());
                row.push(EMPTY_CELL.to_owned());
                row.push(pages_text(&line.page));
                proof {
                    assert(row.deep_view() =~= value_row(line.entry()));
                }
                rows.push(row);
            }
            i += 1;
        }
        sheet(header(), &rows, 1, 2)
    }
}

/// Tells whether the record `annotation` has value-level clauses.
pub fn annotation_need_process(annotation: &Annotation) -> (r: bool)
    ensures
        r == needs_process(annotation@),
{
    starts_with(annotation.domain.as_str(), SUPP) || ends_with(annotation.variable.as_str(), ORRES)
}

/// The header of the table of value-level clauses.
pub fn header() -> (out: Vec<String>)
    ensures
        out.deep_view() == value_header(),
{
    let mut out: Vec<String> = Vec::new();
    out.push("Order\t".to_owned());
    out.push("Dataset\t".to_owned());
    out.push("Variable\t".to_owned());
    out.push("Where Clause\t".to_owned());
    out.push("Label\t".to_owned());
    out.push("Data Type\t".to_owned());
    out.push("Length\t".to_owned());
    out.push("Significant Digits\t".to_owned());
    out.push("Format\t".to_owned());
    out.push("Mandatory\t".to_owned());
    out.push("Assigned Value\t".to_owned());
    out.push("Codelist\t".to_owned());
    out.push("Origin\t".to_owned());
    out.push("Source\t".to_owned());
    out.push("Pages\t".to_owned());
    out
}

} // verus!
