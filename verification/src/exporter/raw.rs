//! The table of raw annotations: one line for each clause of each variable.

use crate::annotation::content::Annotation;
use crate::exporter::utils::{
    copy_pages, entries, page_list, page_numbers, pages_text, record_annotation,
    record_annotations, sheet, sheet_of, unique_ids, with_record, with_records, Entry, Keyed,
};
use vstd::prelude::*;
use vstd::string::*;

verus! {

/// One clause of one variable, with the pages on which it was found.
#[derive(Debug, Clone)]
pub struct Raw {
    pub id: String,
    pub dataset: String,
    pub name: String,
    pub description: String,
    pub page: Vec<usize>,
}

impl Keyed for Raw {
    open spec fn entry(&self) -> Entry {
        Entry {
            id: self.id@,
            dataset: self.dataset@,
            name: self.name@,
            description: self.description@,
            page: page_numbers(self.page@),
        }
    }

    fn has_id(&self, id: &String) -> (r: bool) {
        self.id == *id
    }

    fn with_page(&self, page: usize) -> (out: Self) {
        let mut pages = copy_pages(&self.page);
        pages.push(page);
        let out = Raw {
            id: self.id.clone(),
            dataset: self.dataset.clone(),
            name: self.name.clone(),
            description: self.description.clone(),
            page: pages,
        };
        proof {
            assert(out.entry().page =~= self.entry().page.push(page as nat));
        }
        out
    }

    fn first(id: String, dataset: &String, name: &String, description: &str, page: usize) -> (out:
        Self) {
        let mut pages: Vec<usize> = Vec::new();
        pages.push(page);
        let out = Raw {
            id,
            dataset: dataset.clone(),
            name: name.clone(),
            description: description.to_owned(),
            page: pages,
        };
        proof {
            assert(out.entry().page =~= seq![page as nat]);
        }
        out
    }
}

/// The lines of the table of raw annotations.
pub struct RawSet {
    data: Vec<Raw>,
}

/// The header of the table.
pub open spec fn raw_header() -> Seq<Seq<char>> {
    seq!["Domain"@, "Variable"@, "Description"@, "Pages"@]
}

/// The row of a line.
pub open spec fn raw_row(e: Entry) -> Seq<Seq<char>> {
    seq![e.dataset, e.name, e.description, page_list(e.page)]
}

/// The rows of the lines `data`, in their order.
pub open spec fn raw_rows(data: Seq<Entry>) -> Seq<Seq<Seq<char>>> {
    data.map_values(|e: Entry| raw_row(e))
}

impl RawSet {
    /// The lines, in the order in which they were first recorded.
    pub closed spec fn view(&self) -> Seq<Entry> {
        entries(self.data@)
    }

    /// Whether no two lines of the table have the same identity.
    pub open spec fn wf(&self) -> bool {
        unique_ids(self@)
    }

    /// A table without lines.
    pub fn new() -> (out: RawSet)
        ensures
            out@ == Seq::<Entry>::empty(),
            out.wf(),
    {
        let out = RawSet { data: Vec::new() };
        out
    }

    /// Records what each of the records `annotations` says.
    pub fn add_annotations(&mut self, annotations: &[Annotation])
        requires
            old(self).wf(),
        ensures
            final(self).wf(),
            final(self)@ == with_records(
                old(self)@,
                annotations@.map_values(|a: Annotation| a@),
                annotations@.len() as int,
            ),
    {
        record_annotations(&mut self.data, annotations);
    }

    /// Records what the record `annotation` says: one line for each clause
    /// on each page, and one line for a page without clauses.
    pub fn add(&mut self, annotation: &Annotation)
        requires
            old(self).wf(),
        ensures
            final(self).wf(),
            final(self)@ == with_record(old(self)@, annotation@, false),
    {
        record_annotation(&mut self.data, annotation, false);
    }

    /// The sheet of the table: the header, then the rows by dataset and variable.
    pub fn export(&self) -> (out: Vec<Vec<String>>)
        ensures
            out.deep_view() == sheet_of(raw_header(), raw_rows(self@), 0, 1),
    {
        let mut rows: Vec<Vec<String>> = Vec::new();
        let n = self.data.len();
        let mut i: usize = 0;
        while i < n
            invariant
                i <= n,
                n == self.data@.len(),
                rows@.len() == i,
                forall|j: int|
                    0 <= j < i ==> (#[trigger] rows@[j]).deep_view() == raw_row(self@[j]),
            decreases n - i,
        {
            let line = &self.data[i];
            let mut row: Vec<String> = Vec::new();
            row.push(line.dataset.clone());
            row.push(line.name.clone());
            row.push(line.description.clone());
            row.push(pages_text(&line.page));
            rows.push(row);
            i += 1;
        }
        proof {
            assert(rows.deep_view() =~= raw_rows(self@));
        }
        sheet(header(), &rows, 0, 1)
    }
}

/// The header of the table of raw annotations.
pub fn header() -> (out: Vec<String>)
    ensures
        out.deep_view() == raw_header(),
{
    let mut out: Vec<String> = Vec::new();
    out.push("Domain".to_owned());
    out.push("Variable".to_owned());
    out.push("Description".to_owned());
    out.push("Pages".to_owned());
    out
}

} // verus!
