//! The three tables of a form, filled from its records together.

use crate::annotation::content::Annotation;
use crate::exporter::raw::{raw_header, raw_rows, RawSet};
use crate::exporter::utils::{
    copy_pages, entries, page_numbers, record_annotations, sheet_of, unique_ids, with_records,
    Entry, Keyed,
};
use crate::exporter::value::{value_header, value_rows, with_values, ValueSet};
use crate::exporter::variable::{
    unique_variables, variable_header, variable_rows, with_all_added, VariableSet, VariableView,
};
use vstd::prelude::*;
use vstd::string::*;

verus! {

/// One clause of one variable as the exporter itself keeps it, with the
/// pages on which it was found.
#[derive(Debug, Clone)]
pub struct Item {
    pub id: String,
    pub dataset: String,
    pub variable: String,
    pub description: String,
    pub page: Vec<usize>,
}

impl Keyed for Item {
    open spec fn entry(&self) -> Entry {
        Entry {
            id: self.id@,
            dataset: self.dataset@,
            name: self.variable@,
            description: self.description@,
            page: page_numbers(self.page@),
        }
    }

    fn has_id(&self, id: &String) -> (r: bool) {
        self.id == *id
    }

    fn with_page(&self, page: usize) -> (out: Self) {
        let mut pages = copy_pages(&self.page);
        pages.push(page);
        let out = Item {
            id: self.id.clone(),
            dataset: self.dataset.clone(),
            variable: self.variable.clone(),
            description: self.description.clone(),
            page: pages,
        };
        proof {
            assert(out.entry().page =~= self.entry().page.push(page as nat));
        }
        out
    }

    fn first(id: String, dataset: &String, name: &String, description: &str, page: usize) -> (out:
        Self) {
        let mut pages: Vec<usize> = Vec::new();
        pages.push(page);
        let out = Item {
            id,
            dataset: dataset.clone(),
            variable: name.clone(),
            description: description.to_owned(),
            page: pages,
        };
        proof {
            assert(out.entry().page =~= seq![page as nat]);
        }
        out
    }
}

/// Collects the records of a form into the table of variables, the table of
/// value-level clauses and the table of raw annotations.
pub struct Exporter {
    items: Vec<Item>,
    values: ValueSet,
    variables: VariableSet,
    raws: RawSet,
}

/// The state of an [`Exporter`].
pub struct ExporterView {
    /// The clauses that the exporter itself keeps.
    pub items: Seq<Entry>,
    /// The lines of the table of value-level clauses.
    pub values: Seq<Entry>,
    /// The lines of the table of variables.
    pub variables: Seq<VariableView>,
    /// The lines of the table of raw annotations.
    pub raws: Seq<Entry>,
}

impl Exporter {
    /// The state of the exporter.
    pub closed spec fn view(&self) -> ExporterView {
        ExporterView {
            items: entries(self.items@),
            values: self.values@,
            variables: self.variables@,
            raws: self.raws@,
        }
    }

    /// Whether in none of the tables two lines have the same identity.
    pub open spec fn wf(&self) -> bool {
        &&& unique_ids(self@.items)
        &&& unique_ids(self@.values)
        &&& unique_variables(self@.variables)
        &&& unique_ids(self@.raws)
    }

    /// An exporter that holds nothing.
    pub fn new() -> (out: Exporter)
        ensures
            out.wf(),
            out@ == (ExporterView {
                items: Seq::empty(),
                values: Seq::empty(),
                variables: Seq::empty(),
                raws: Seq::empty(),
            }),
    {
        let out = Exporter {
            items: Vec::new(),
            values: ValueSet::new(),
            variables: VariableSet::new(),
            raws: RawSet::new(),
        };
        proof {
            assert(out@.items =~= Seq::<Entry>::empty());
        }
        out
    }

    /// Adds the records `annotations` to each of the tables.
    pub fn add_annotations(&mut self, annotations: &[Annotation])
        requires
            old(self).wf(),
        ensures
            final(self).wf(),
            final(self)@ == ({
                let list = annotations@.map_values(|a: Annotation| a@);
                let n = annotations@.len() as int;
                ExporterView {
                    items: with_records(old(self)@.items, list, n),
                    values: with_values(old(self)@.values, list, n),
                    variables: with_all_added(old(self)@.variables, list, n),
                    raws: with_records(old(self)@.raws, list, n),
                }
            }),
    {
        self.values.add_annotations(annotations);
        self.variables.add_annotations(annotations);
        self.raws.add_annotations(annotations);
        record_annotations(&mut self.items, annotations);
    }

    /// The sheet of the table of variables.
    pub fn variable_sheet(&self) -> (out: Vec<Vec<String>>)
        ensures
            out.deep_view() == sheet_of(variable_header(), variable_rows(self@.variables), 1, 2),
    {
        self.variables.export()
    }

    /// The sheet of the table of value-level clauses.
    pub fn value_sheet(&self) -> (out: Vec<Vec<String>>)
        ensures
            out.deep_view() == sheet_of(
                value_header(),
                value_rows(self@.values, self@.values.len() as int),
                1,
                2,
            ),
    {
        self.values.export()
    }

    /// The sheet of the table of raw annotations.
    pub fn raw_sheet(&self) -> (out: Vec<Vec<String>>)
        ensures
            out.deep_view() == sheet_of(raw_header(), raw_rows(self@.raws), 0, 1),
    {
        self.raws.export()
    }
}

} // verus!
