//! Reading the annotations of a form page by page, and folding what they say
//! of each variable into one record.
//!
//! The dataset of a statement is that of its page, not one guessed from the
//! name of its variable: an annotation carries a marker, its colour, and the
//! first annotation of a page that declares a dataset under a marker settles
//! the dataset of all statements of the page under that marker. An annotation
//! without a colour stands under the marker of the annotation before it on
//! the page. A statement that stands before the declaration of its dataset is
//! given its identity once the whole page has been read. A statement whose
//! dataset no annotation of its page declares is left out.
//!
//! The records are kept in the order in which their variables were first
//! seen, no two of one identity; they are handed out sorted by identity. A
//! record has one entry for each page on which its variable was seen, in the
//! order of the pages, and no entry holds a clause twice.

use crate::annotation::content::{
    add_clauses, cleaned, distinct, lemma_once, lemma_with_clauses, lemma_with_clauses_known,
    once, once_each, tidy, views, with_clauses, Annotation, AnnotationView, PageDescription,
    PageDescriptionView,
};
use crate::annotation::decoder::{decodable, decode_gb18030, gb18030_text};
use crate::annotation::grammar::{
    canonical, identify, identity, lemma_main_statement_records, lemma_supp_statement_records,
    main_records, main_statement, on_page, read_on, record_from, supp_records, supp_statement,
    supplemental,
};
use crate::annotation::kind::{annotation_kind, classified, AnnotationKind};
use crate::annotation::pattern::{capture, pattern_group};
use crate::annotation::symbol::{
    lemma_separators, ASSIGNED_DOMAIN, CR, NL, SPACE, SUPP, TITLED_DOMAIN,
};
use crate::order::{
    arranged, is_sorting, key_views, positions, sorted_by, sorted_order, sorting_of, text_le,
};
use crate::text::{concat3, replace, replaced, trim, trimmed};
use vstd::prelude::*;
use vstd::string::*;

verus! {

/// One annotation object of a page, as the document holds it.
pub struct PageAnnotation {
    /// For each component of the colour of the annotation, whether it is at
    /// full intensity; `None` where the annotation has no colour.
    pub color: Option<Vec<bool>>,
    /// The bytes of the text of the annotation; `None` where it has none.
    pub contents: Option<Vec<u8>>,
}

/// The mathematical content of a [`PageAnnotation`].
pub struct PageAnnotationView {
    pub color: Option<Seq<bool>>,
    pub contents: Option<Seq<u8>>,
}

impl View for PageAnnotation {
    type V = PageAnnotationView;

    open spec fn view(&self) -> PageAnnotationView {
        PageAnnotationView {
            color: match self.color {
                Some(c) => Some(c@),
                None => None,
            },
            contents: match self.contents {
                Some(c) => Some(c@),
                None => None,
            },
        }
    }
}

/// The contents of a list of annotation objects.
pub open spec fn object_views(list: Seq<PageAnnotation>) -> Seq<PageAnnotationView> {
    list.map_values(|o: PageAnnotation| o@)
}

/// The contents of the pages of a document.
pub open spec fn page_views(pages: Seq<Vec<PageAnnotation>>) -> Seq<Seq<PageAnnotationView>> {
    pages.map_values(|p: Vec<PageAnnotation>| object_views(p@))
}

/// A dataset declared under a marker.
struct DomainEntry {
    id: String,
    domain: String,
}

/// Reads the annotations of a document and keeps one record for each variable.
pub struct AnnotationFetcher {
    page_domain_map: Vec<DomainEntry>,
    current_page: usize,
    current_domain_id: String,
    annotation_map: Vec<Annotation>,
}

/// The state of an [`AnnotationFetcher`].
pub struct FetcherView {
    /// The datasets declared on the current page, each with its marker, in
    /// the order of their declaration.
    pub domains: Seq<(Seq<char>, Seq<char>)>,
    /// The number of the current page.
    pub page: nat,
    /// The marker of the annotation that was read last on the current page.
    pub domain_id: Seq<char>,
    /// The records, in the order in which their variables were first seen.
    pub records: Seq<AnnotationView>,
}

/// The marker that a colour stands for: one digit for each of its first
/// three components, `1` where the component is at full intensity.
pub open spec fn marker_of(flags: Seq<bool>) -> Seq<char> {
    Seq::new(
        if flags.len() < 3 {
            flags.len()
        } else {
            3
        },
        |i: int|
            if flags[i] {
                '1'
            } else {
                '0'
            },
    )
}

/// The dataset declared first under the marker `id` among the declarations
/// from position `from` on.
pub open spec fn lookup(domains: Seq<(Seq<char>, Seq<char>)>, id: Seq<char>, from: int) -> Option<
    Seq<char>,
>
    decreases domains.len() - from,
{
    if from < 0 || from >= domains.len() {
        None
    } else if domains[from].0 == id {
        Some(domains[from].1)
    } else {
        lookup(domains, id, from + 1)
    }
}

/// Whether no marker has two declarations among `domains`.
pub open spec fn declared_once(domains: Seq<(Seq<char>, Seq<char>)>) -> bool {
    forall|i: int, j: int|
        0 <= i < j < domains.len() ==> (#[trigger] domains[i]).0 != (#[trigger] domains[j]).0
}

/// The dataset declared under the marker `id`; empty where there is none.
pub open spec fn resolved(domains: Seq<(Seq<char>, Seq<char>)>, id: Seq<char>) -> Seq<char> {
    match lookup(domains, id, 0) {
        Some(domain) => domain,
        None => Seq::empty(),
    }
}

/// The dataset that the text `text` declares: the code before a parenthesised
/// title, or else the code before an equal sign.
pub open spec fn declared_domain(text: Seq<char>) -> Option<Seq<char>> {
    match pattern_group(TITLED_DOMAIN@, text, 1) {
        Some(code) => Some(code),
        None => pattern_group(ASSIGNED_DOMAIN@, text, 1),
    }
}

/// The text `text` without whitespace around it, each line feed and each
/// carriage return in it turned into a space.
pub open spec fn unbroken(text: Seq<char>) -> Seq<char> {
    replaced(replaced(trimmed(text), NL@, SPACE@), CR@, SPACE@)
}

/// The text of the contents `raw`: decoded, and unbroken.
pub open spec fn normalized(raw: Seq<u8>) -> Seq<char> {
    unbroken(gb18030_text(raw))
}

/// The position of the first record from position `from` on whose identity is `id`.
pub open spec fn position(records: Seq<AnnotationView>, id: Seq<char>, from: int) -> Option<int>
    decreases records.len() - from,
{
    if from < 0 || from >= records.len() {
        None
    } else if records[from].id == id {
        Some(from)
    } else {
        position(records, id, from + 1)
    }
}

/// The record `known` after `seen`, a record of the same variable on one
/// page, was folded into it: where the last entry of `known` is of another
/// page, the entry of `seen` follows it, with each of its clauses once;
/// where it is of the same page, it takes the clauses of `seen` that it does
/// not hold yet.
pub open spec fn folded(known: AnnotationView, seen: AnnotationView) -> AnnotationView {
    let last = known.page_description.last();
    let entry = seen.page_description[0];
    if last.page != entry.page {
        AnnotationView { page_description: known.page_description.push(cleaned(entry)), ..known }
    } else {
        AnnotationView {
            page_description: known.page_description.drop_last().push(
                PageDescriptionView {
                    page: last.page,
                    description: with_clauses(
                        last.description,
                        entry.description,
                        entry.description.len() as int,
                    ),
                },
            ),
            ..known
        }
    }
}

/// The record `seen`, read on one page, as it is kept when its variable is
/// new: its entry holds each of its clauses once.
pub open spec fn entered(seen: AnnotationView) -> AnnotationView {
    AnnotationView { page_description: seq![cleaned(seen.page_description[0])], ..seen }
}

/// The records after the record `seen` was merged into them: a record
/// without identity is left out, a record of a new identity is added at the
/// end, and a record of a known identity is folded into the one that is there.
pub open spec fn merged(records: Seq<AnnotationView>, seen: AnnotationView) -> Seq<
    AnnotationView,
> {
    if seen.id.len() == 0 {
        records
    } else {
        match position(records, seen.id, 0) {
            Some(k) => records.update(k, folded(records[k], seen)),
            None => records.push(entered(seen)),
        }
    }
}

/// Whether every record has an identity of its own and at least one page
/// entry, and no page entry holds a clause twice.
pub open spec fn well_formed(records: Seq<AnnotationView>) -> bool {
    &&& forall|i: int|
        0 <= i < records.len() ==> (#[trigger] records[i]).id.len() > 0
            && records[i].page_description.len() > 0 && tidy(records[i])
    &&& forall|i: int, j: int|
        0 <= i < j < records.len() ==> (#[trigger] records[i]).id != (#[trigger] records[j]).id
}

/// Whether the pages of the entries of the record `record` ascend: no page
/// has two entries, and a later page stands after an earlier one.
pub open spec fn ascending_history(record: AnnotationView) -> bool {
    forall|i: int, j: int|
        0 <= i < j < record.page_description.len() ==> (#[trigger] record.page_description[i]).page
            < (#[trigger] record.page_description[j]).page
}

/// Whether the records `records` are those of pages up to `page`: the pages
/// of each record ascend and are none after `page`.
pub open spec fn chronological(records: Seq<AnnotationView>, page: nat) -> bool {
    forall|k: int|
        0 <= k < records.len() ==> ascending_history(#[trigger] records[k]) && (forall|i: int|
            0 <= i < records[k].page_description.len() ==> (
            #[trigger] records[k].page_description[i]).page <= page)
}

/// Whether the identity of each of the records `records` is that of its
/// dataset and its variable.
pub open spec fn canonical_all(records: Seq<AnnotationView>) -> bool {
    forall|i: int| 0 <= i < records.len() ==> canonical(#[trigger] records[i])
}

/// The state at the start of the page `page`: nothing is declared yet, and
/// no annotation was read.
pub open spec fn opened(state: FetcherView, page: nat) -> FetcherView {
    FetcherView { domains: Seq::empty(), page, domain_id: Seq::empty(), records: state.records }
}

/// The state after an annotation of the colour `flags` was met.
pub open spec fn marked(state: FetcherView, flags: Seq<bool>) -> FetcherView {
    FetcherView { domain_id: marker_of(flags), ..state }
}

/// The state after the dataset `code` was found declared: it is the dataset
/// of the current marker where that one had none.
pub open spec fn declared(state: FetcherView, code: Option<Seq<char>>) -> FetcherView {
    if lookup(state.domains, state.domain_id, 0) is None {
        match code {
            Some(code) => FetcherView {
                domains: state.domains.push((state.domain_id, code)),
                ..state
            },
            None => state,
        }
    } else {
        state
    }
}

/// The state after the text `text` was read: where no dataset is declared
/// under the current marker yet and the text declares one, it is declared now.
pub open spec fn noted(state: FetcherView, text: Seq<char>) -> FetcherView {
    declared(state, declared_domain(text))
}

/// The records that the text `text` gives in the state `state`.
pub open spec fn statement_records(state: FetcherView, text: Seq<char>) -> Seq<AnnotationView> {
    let domain = resolved(state.domains, state.domain_id);
    match classified(text) {
        AnnotationKind::Main => main_statement(text, state.page, domain, state.domain_id),
        AnnotationKind::Supp => supp_statement(text, state.page, domain, state.domain_id),
        AnnotationKind::Other => Seq::empty(),
    }
}

/// The state after the contents `raw` of an annotation were read, and the
/// records that they give. Contents too long to be decoded give nothing.
pub open spec fn read_contents(state: FetcherView, raw: Seq<u8>) -> (FetcherView, Seq<
    AnnotationView,
>) {
    if decodable(raw) {
        let text = normalized(raw);
        let next = noted(state, text);
        (next, statement_records(next, text))
    } else {
        (state, Seq::empty())
    }
}

/// The state after the annotation `object` was read, and the records that it gives.
pub open spec fn read_object(state: FetcherView, object: PageAnnotationView) -> (
    FetcherView,
    Seq<AnnotationView>,
) {
    let next = match object.color {
        Some(flags) => marked(state, flags),
        None => state,
    };
    match object.contents {
        Some(raw) => read_contents(next, raw),
        None => (next, Seq::empty()),
    }
}

/// The state after the first `upto` of the annotations `objects` were read,
/// and the records that they give, in their order.
pub open spec fn read_objects(state: FetcherView, objects: Seq<PageAnnotationView>, upto: int) -> (
    FetcherView,
    Seq<AnnotationView>,
)
    decreases upto,
{
    if upto <= 0 {
        (state, Seq::empty())
    } else {
        let before = read_objects(state, objects, upto - 1);
        let step = read_object(before.0, objects[upto - 1]);
        (step.0, before.1 + step.1)
    }
}

/// The record `seen` with the identity that the declarations `domains` give
/// it, where it had none and its dataset is declared.
pub open spec fn identified(
    domains: Seq<(Seq<char>, Seq<char>)>,
    seen: AnnotationView,
) -> AnnotationView {
    let code = resolved(domains, seen.domain_id);
    if seen.id.len() == 0 && code.len() > 0 {
        let domain = if seen.supp {
            supplemental(code)
        } else {
            code
        };
        AnnotationView { id: identity(domain, seen.variable), domain, ..seen }
    } else {
        seen
    }
}

/// The records after the first `upto` of the records `found` on one page
/// were merged into them, each with the identity that the declarations of
/// the page give it.
pub open spec fn merged_all(
    records: Seq<AnnotationView>,
    domains: Seq<(Seq<char>, Seq<char>)>,
    found: Seq<AnnotationView>,
    upto: int,
) -> Seq<AnnotationView>
    decreases upto,
{
    if upto <= 0 {
        records
    } else {
        merged(merged_all(records, domains, found, upto - 1), identified(domains, found[upto - 1]))
    }
}

/// The state after the page `page` with the annotations `objects` was read.
pub open spec fn read_page(
    state: FetcherView,
    page: nat,
    objects: Seq<PageAnnotationView>,
) -> FetcherView {
    let read = read_objects(opened(state, page), objects, objects.len() as int);
    FetcherView {
        records: merged_all(state.records, read.0.domains, read.1, read.1.len() as int),
        ..read.0
    }
}

/// The state after the first `upto` of the pages `pages` were read, the
/// first page of the document, its cover, left out.
pub open spec fn read_pages(
    state: FetcherView,
    pages: Seq<Seq<PageAnnotationView>>,
    upto: int,
) -> FetcherView
    decreases upto,
{
    if upto <= 0 {
        state
    } else if upto == 1 {
        read_pages(state, pages, upto - 1)
    } else {
        read_page(read_pages(state, pages, upto - 1), upto as nat, pages[upto - 1])
    }
}

/// What `lookup` finds is the first declaration under the marker.
pub proof fn lemma_lookup(domains: Seq<(Seq<char>, Seq<char>)>, id: Seq<char>, from: int)
    requires
        0 <= from,
    ensures
        match lookup(domains, id, from) {
            Some(code) => exists|k: int|
                from <= k < domains.len() && #[trigger] domains[k] == (id, code),
            None => forall|j: int| from <= j < domains.len() ==> (#[trigger] domains[j]).0 != id,
        },
    decreases domains.len() - from,
{
    if from < domains.len() {
        if domains[from].0 == id {
            assert(domains[from] == (id, domains[from].1));
        } else {
            lemma_lookup(domains, id, from + 1);
        }
    }
}

/// Taking a declared dataset keeps each marker with one dataset: it is
/// taken only where the current marker has none.
pub proof fn lemma_declared_once(state: FetcherView, code: Option<Seq<char>>)
    requires
        declared_once(state.domains),
    ensures
        declared_once(declared(state, code).domains),
{
    lemma_lookup(state.domains, state.domain_id, 0);
}

/// What `position` finds is the first record of the identity.
pub proof fn lemma_position(records: Seq<AnnotationView>, id: Seq<char>, from: int)
    requires
        0 <= from,
    ensures
        match position(records, id, from) {
            Some(k) => {
                &&& from <= k < records.len()
                &&& records[k].id == id
                &&& forall|j: int| from <= j < k ==> (#[trigger] records[j]).id != id
            },
            None => forall|j: int| from <= j < records.len() ==> (#[trigger] records[j]).id != id,
        },
    decreases records.len() - from,
{
    if from < records.len() && records[from].id != id {
        lemma_position(records, id, from + 1);
    }
}

/// Merging keeps the records well formed: every record keeps an identity of
/// its own and at least one page entry, and no page entry holds a clause twice.
pub proof fn lemma_merged_well_formed(records: Seq<AnnotationView>, seen: AnnotationView)
    requires
        well_formed(records),
        seen.page_description.len() == 1,
    ensures
        well_formed(merged(records, seen)),
{
    let out = merged(records, seen);
    let entry = seen.page_description[0];
    lemma_position(records, seen.id, 0);
    lemma_once(entry.description);
    if seen.id.len() > 0 {
        match position(records, seen.id, 0) {
            Some(k) => {
                let known = records[k];
                let last = known.page_description.last();
                let n = known.page_description.len() as int;
                assert(tidy(known));
                lemma_with_clauses(
                    last.description,
                    entry.description,
                    entry.description.len() as int,
                );
                assert forall|i: int| 0 <= i < out[k].page_description.len() implies distinct(
                    (#[trigger] out[k].page_description[i]).description,
                ) by {
                    if i < n - 1 {
                        assert(out[k].page_description[i] == known.page_description[i]);
                    } else if i == n - 1 && last.page != entry.page {
                        assert(out[k].page_description[i] == known.page_description[i]);
                    }
                }
                assert forall|i: int| 0 <= i < out.len() implies (#[trigger] out[i]).id.len() > 0
                    && out[i].page_description.len() > 0 && tidy(out[i]) by {
                    if i != k {
                        assert(out[i] == records[i]);
                    }
                }
            },
            None => {
                assert forall|i: int| 0 <= i < out.len() implies (#[trigger] out[i]).id.len() > 0
                    && out[i].page_description.len() > 0 && tidy(out[i]) by {
                    if i < records.len() {
                        assert(out[i] == records[i]);
                    }
                }
            },
        }
    }
}

/// Merging a record twice gives what merging it once gives.
pub proof fn lemma_merge_idempotent(records: Seq<AnnotationView>, seen: AnnotationView)
    requires
        well_formed(records),
        seen.page_description.len() == 1,
    ensures
        merged(merged(records, seen), seen) == merged(records, seen),
{
    let once_merged = merged(records, seen);
    let entry = seen.page_description[0];
    let clauses = entry.description;
    let n = clauses.len() as int;
    lemma_position(records, seen.id, 0);
    lemma_position(once_merged, seen.id, 0);
    lemma_once(clauses);
    if seen.id.len() > 0 {
        match position(records, seen.id, 0) {
            Some(k) => {
                assert(once_merged[k].id == seen.id);
                let last = records[k].page_description.last();
                let first = once_merged[k];
                if last.page != entry.page {
                    lemma_with_clauses_known(once(clauses), clauses, n);
                    assert(first.page_description.drop_last().push(cleaned(entry))
                        =~= first.page_description);
                } else {
                    let all = with_clauses(last.description, clauses, n);
                    lemma_with_clauses(last.description, clauses, n);
                    lemma_with_clauses_known(all, clauses, n);
                    assert(first.page_description.last() == PageDescriptionView {
                        page: last.page,
                        description: all,
                    });
                    assert(first.page_description.drop_last().push(first.page_description.last())
                        =~= first.page_description);
                }
            },
            None => {
                let k = records.len() as int;
                let kept = entered(seen);
                assert(once_merged[k] == kept);
                lemma_with_clauses_known(once(clauses), clauses, n);
                assert(kept.page_description.drop_last().push(cleaned(entry))
                    =~= kept.page_description);
            },
        }
    }
}

/// Merging a record of a page that is none before the pages read so far
/// keeps the pages of every record ascending: no record gets two entries
/// for one page.
pub proof fn lemma_merge_chronological(
    records: Seq<AnnotationView>,
    seen: AnnotationView,
    page: nat,
)
    requires
        well_formed(records),
        chronological(records, page),
        on_page(seen, page),
    ensures
        chronological(merged(records, seen), page),
{
    let out = merged(records, seen);
    let entry = seen.page_description[0];
    lemma_position(records, seen.id, 0);
    if seen.id.len() > 0 {
        match position(records, seen.id, 0) {
            Some(k) => {
                let known = records[k];
                let last = known.page_description.last();
                let n = known.page_description.len() as int;
                assert forall|i: int, j: int|
                    0 <= i < j < out[k].page_description.len() implies (
                #[trigger] out[k].page_description[i]).page < (
                #[trigger] out[k].page_description[j]).page by {
                    if last.page != entry.page && j >= n && i < n - 1 {
                        assert(known.page_description[i].page < known.page_description[n
                            - 1].page);
                    }
                }
            },
            None => {},
        }
    }
}

/// Merging keeps identities as they are: a record keeps its identity, its
/// dataset and its variable, whatever is folded into it.
pub proof fn lemma_merge_canonical(records: Seq<AnnotationView>, seen: AnnotationView)
    requires
        canonical_all(records),
        canonical(seen),
    ensures
        canonical_all(merged(records, seen)),
{
    let out = merged(records, seen);
    lemma_position(records, seen.id, 0);
    assert forall|i: int| 0 <= i < out.len() implies canonical(#[trigger] out[i]) by {
        if i < records.len() {
            assert(canonical(records[i]));
        }
    }
}

/// Records of pages up to one page are records of pages up to any later page.
pub proof fn lemma_chronological_later(records: Seq<AnnotationView>, page: nat, later: nat)
    requires
        chronological(records, page),
        page <= later,
    ensures
        chronological(records, later),
{
}

/// The text `text` without whitespace around it and without line breaks.
pub fn normalize(text: &str) -> (out: String)
    ensures
        out@ == unbroken(text@),
{
    proof {
        lemma_separators();
    }
    let joined = replace(trim(text), NL, SPACE);
    replace(joined.as_str(), CR, SPACE)
}

/// The marker that a colour stands for.
pub fn domain_id(pattern: &[bool]) -> (id: String)
    ensures
        id@ == marker_of(pattern@),
{
    let n = if pattern.len() < 3 {
        pattern.len()
    } else {
        3
    };
    let mut id = String::new();
    let mut i: usize = 0;
    while i < n
        invariant
            i <= n,
            n <= pattern@.len(),
            n <= 3,
            id@.len() == i,
            forall|j: int| 0 <= j < i ==> id@[j] == (if pattern@[j] {
                '1'
            } else {
                '0'
            }),
        decreases n - i,
    {
        proof {
            reveal_strlit("1");
            reveal_strlit("0");
        }
        if pattern[i] {
            id.append("1");
        } else {
            id.append("0");
        }
        i += 1;
    }
    id
}

impl AnnotationFetcher {
    /// The state of the fetcher.
    pub closed spec fn view(&self) -> FetcherView {
        FetcherView {
            domains: self.page_domain_map@.map_values(|e: DomainEntry| (e.id@, e.domain@)),
            page: self.current_page as nat,
            domain_id: self.current_domain_id@,
            records: views(self.annotation_map@),
        }
    }

    /// Whether the fetcher is well formed: its records are, and no marker
    /// has two datasets.
    pub open spec fn wf(&self) -> bool {
        well_formed(self@.records) && declared_once(self@.domains)
    }

    /// The state of a fetcher that has read nothing.
    pub open spec fn new_spec() -> FetcherView {
        FetcherView {
            domains: Seq::empty(),
            page: 0,
            domain_id: Seq::empty(),
            records: Seq::empty(),
        }
    }

    /// A fetcher that has read nothing.
    pub fn new() -> (out: AnnotationFetcher)
        ensures
            out.wf(),
            out@ == Self::new_spec(),
    {
        let out = AnnotationFetcher {
            page_domain_map: Vec::new(),
            annotation_map: Vec::new(),
            current_page: 0,
            current_domain_id: String::new(),
        };
        proof {
            assert(out@.domains =~= Seq::empty());
            assert(out@.records =~= Seq::empty());
        }
        out
    }

    /// Turns to the page `page`.
    pub fn begin_page(&mut self, page: usize)
        requires
            old(self).wf(),
        ensures
            final(self).wf(),
            final(self)@ == opened(old(self)@, page as nat),
    {
        self.page_domain_map = Vec::new();
        self.current_page = page;
        self.current_domain_id = String::new();
        proof {
            assert(self@.domains =~= Seq::empty());
        }
    }

    /// Takes the marker of an annotation of the colour `pattern`.
    pub fn set_marker(&mut self, pattern: &[bool])
        requires
            old(self).wf(),
        ensures
            final(self).wf(),
            final(self)@ == marked(old(self)@, pattern@),
    {
        self.current_domain_id = domain_id(pattern);
    }

    /// The dataset declared under the current marker; empty where there is none.
    pub fn current_domain(&self) -> (out: Option<String>)
        ensures
            match out {
                Some(domain) => lookup(self@.domains, self@.domain_id, 0) == Some(domain@),
                None => lookup(self@.domains, self@.domain_id, 0) is None,
            },
    {
        self.domain_of(self.current_domain_id.as_str())
    }

    /// The dataset declared under the marker `id`.
    pub fn domain_of(&self, id: &str) -> (out: Option<String>)
        ensures
            match out {
                Some(domain) => lookup(self@.domains, id@, 0) == Some(domain@),
                None => lookup(self@.domains, id@, 0) is None,
            },
    {
        let wanted = id.to_owned();
        let n = self.page_domain_map.len();
        let mut i: usize = 0;
        while i < n
            invariant
                i <= n,
                n == self.page_domain_map@.len(),
                wanted@ == id@,
                lookup(self@.domains, id@, 0) == lookup(self@.domains, id@, i as int),
            decreases n - i,
        {
            assert(self@.domains[i as int] == (
                self.page_domain_map@[i as int].id@,
                self.page_domain_map@[i as int].domain@,
            ));
            if self.page_domain_map[i].id == wanted {
                return Some(self.page_domain_map[i].domain.clone());
            }
            i += 1;
        }
        None
    }

    /// Takes the dataset `code`, found declared, as that of the current
    /// marker, where that one has none.
    pub fn record_declaration(&mut self, code: Option<String>)
        requires
            old(self).wf(),
        ensures
            final(self).wf(),
            final(self)@ == declared(
                old(self)@,
                match code {
                    Some(c) => Some(c@),
                    None => None,
                },
            ),
    {
        proof {
            lemma_lookup(self@.domains, self@.domain_id, 0);
        }
        if self.current_domain().is_none() {
            match code {
                Some(code) => {
                    let ghost before = self@.domains;
                    let entry = DomainEntry { id: self.current_domain_id.clone(), domain: code };
                    self.page_domain_map.push(entry);
                    proof {
                        assert(self@.domains =~= before.push((entry.id@, entry.domain@)));
                    }
                },
                None => {},
            }
        }
    }

    /// Reads a text for the declaration of a dataset.
    pub fn note_declaration(&mut self, text: &str)
        requires
            old(self).wf(),
        ensures
            final(self).wf(),
            final(self)@ == noted(old(self)@, text@),
    {
        if self.current_domain().is_none() {
            let code = match capture(TITLED_DOMAIN, text, 1) {
                Some(code) => Some(code),
                None => capture(ASSIGNED_DOMAIN, text, 1),
            };
            self.record_declaration(code);
        }
    }

    /// The records of the statement `raw`, read on the current page under the
    /// current marker.
    pub fn main_annotation(&self, raw: &str) -> (out: Vec<Annotation>)
        ensures
            views(out@) == main_statement(
                raw@,
                self@.page,
                resolved(self@.domains, self@.domain_id),
                self@.domain_id,
            ),
            forall|i: int| 0 <= i < out@.len() ==> read_on((#[trigger] out@[i])@, self@.page),
            forall|i: int|
                0 <= i < out@.len() ==> record_from(
                    (#[trigger] out@[i])@,
                    raw@,
                    self@.page,
                    resolved(self@.domains, self@.domain_id),
                    self@.domain_id,
                    false,
                ),
    {
        let domain = match self.current_domain() {
            Some(domain) => domain,
            None => String::new(),
        };
        let out = main_records(
            raw,
            self.current_page,
            domain.as_str(),
            self.current_domain_id.as_str(),
        );
        proof {
            lemma_main_statement_records(raw@, self@.page, domain@, self@.domain_id);
            assert forall|i: int| 0 <= i < out@.len() implies record_from(
                (#[trigger] out@[i])@,
                raw@,
                self@.page,
                domain@,
                self@.domain_id,
                false,
            ) by {
                assert(views(out@)[i] == out@[i]@);
            }
        }
        out
    }

    /// The records of the supplemental statement `raw`, read on the current
    /// page under the current marker.
    pub fn supp_annotation(&self, raw: &str) -> (out: Vec<Annotation>)
        ensures
            views(out@) == supp_statement(
                raw@,
                self@.page,
                resolved(self@.domains, self@.domain_id),
                self@.domain_id,
            ),
            forall|i: int| 0 <= i < out@.len() ==> read_on((#[trigger] out@[i])@, self@.page),
            forall|i: int|
                0 <= i < out@.len() ==> record_from(
                    (#[trigger] out@[i])@,
                    raw@,
                    self@.page,
                    supplemental(resolved(self@.domains, self@.domain_id)),
                    self@.domain_id,
                    true,
                ),
    {
        let domain = match self.current_domain() {
            Some(domain) => domain,
            None => String::new(),
        };
        let out = supp_records(
            raw,
            self.current_page,
            domain.as_str(),
            self.current_domain_id.as_str(),
        );
        proof {
            lemma_supp_statement_records(raw@, self@.page, domain@, self@.domain_id);
            assert forall|i: int| 0 <= i < out@.len() implies record_from(
                (#[trigger] out@[i])@,
                raw@,
                self@.page,
                supplemental(domain@),
                self@.domain_id,
                true,
            ) by {
                assert(views(out@)[i] == out@[i]@);
            }
        }
        out
    }

    /// The records of the text `text` of an annotation, read on the current
    /// page under the current marker, after the text was read for a
    /// declaration.
    pub fn text_to_annotations(&mut self, text: &str) -> (out: Vec<Annotation>)
        requires
            old(self).wf(),
        ensures
            final(self).wf(),
            final(self)@ == noted(old(self)@, text@),
            views(out@) == statement_records(final(self)@, text@),
            forall|i: int| 0 <= i < out@.len() ==> read_on((#[trigger] out@[i])@, old(self)@.page),
    {
        self.note_declaration(text);
        match annotation_kind(text) {
            AnnotationKind::Main => self.main_annotation(text),
            AnnotationKind::Supp => self.supp_annotation(text),
            AnnotationKind::Other => {
                let out: Vec<Annotation> = Vec::new();
                out
            },
        }
    }

    /// The records of the contents `raw` of an annotation, read on the
    /// current page under the current marker.
    pub fn object_to_annotations(&mut self, raw: &[u8]) -> (out: Vec<Annotation>)
        requires
            old(self).wf(),
        ensures
            final(self).wf(),
            final(self)@ == read_contents(old(self)@, raw@).0,
            views(out@) == read_contents(old(self)@, raw@).1,
            forall|i: int| 0 <= i < out@.len() ==> read_on((#[trigger] out@[i])@, old(self)@.page),
    {
        if raw.len() > usize::MAX / 16 {
            let out: Vec<Annotation> = Vec::new();
            return out;
        }
        let decoded = decode_gb18030(raw);
        let text = normalize(decoded.as_str());
        self.text_to_annotations(text.as_str())
    }

    /// The position of the record whose identity is `id`.
    fn find(&self, id: &String) -> (out: Option<usize>)
        ensures
            match out {
                Some(k) => position(self@.records, id@, 0) == Some(k as int) && k
                    < self.annotation_map@.len() && self@.records[k as int].id == id@,
                None => position(self@.records, id@, 0) is None && forall|i: int|
                    0 <= i < self@.records.len() ==> (#[trigger] self@.records[i]).id != id@,
            },
    {
        let n = self.annotation_map.len();
        let mut i: usize = 0;
        while i < n
            invariant
                i <= n,
                n == self.annotation_map@.len(),
                position(self@.records, id@, 0) == position(self@.records, id@, i as int),
                forall|j: int| 0 <= j < i ==> (#[trigger] self@.records[j]).id != id@,
            decreases n - i,
        {
            if self.annotation_map[i].id == *id {
                return Some(i);
            }
            i += 1;
        }
        None
    }

    /// Merges the record `annotation`, read on one page, into the records.
    /// No clause comes to stand twice in a page entry.
    pub fn merge(&mut self, annotation: Annotation)
        requires
            old(self).wf(),
            annotation@.page_description.len() == 1,
        ensures
            final(self).wf(),
            final(self)@ == (FetcherView {
                records: merged(old(self)@.records, annotation@),
                ..old(self)@
            }),
    {
        if annotation.id.as_str().is_empty() {
            return ;
        }
        let ghost before = self@.records;
        proof {
            lemma_merged_well_formed(before, annotation@);
        }
        let entry = &annotation.page_description[0];
        let clean = PageDescription {
            page: entry.page,
            description: once_each(&entry.description),
        };
        match self.find(&annotation.id) {
            None => {
                let mut history: Vec<PageDescription> = Vec::new();
                history.push(clean);
                let kept = Annotation {
                    id: annotation.id.clone(),
                    domain: annotation.domain.clone(),
                    domain_id: annotation.domain_id.clone(),
                    variable: annotation.variable.clone(),
                    page_description: history,
                    supp: annotation.supp,
                    raw: annotation.raw.clone(),
                };
                proof {
                    assert(kept@.page_description =~= entered(annotation@).page_description);
                }
                self.annotation_map.push(kept);
                proof {
                    assert(self@.records =~= before.push(kept@));
                }
            },
            Some(k) => {
                let mut known = self.annotation_map[k].duplicate();
                let ghost history = known@.page_description;
                match known.page_description.pop() {
                    // a record that is kept has at least one page entry
                    None => {},
                    Some(mut last) => {
                        if last.page != entry.page {
                            known.page_description.push(last);
                            known.page_description.push(clean);
                            proof {
                                assert(known@.page_description =~= history.push(clean@));
                            }
                        } else {
                            add_clauses(&mut last, &entry.description);
                            known.page_description.push(last);
                            proof {
                                assert(known@.page_description =~= history.drop_last().push(last@));
                            }
                        }
                        self.annotation_map.set(k, known);
                        proof {
                            assert(self@.records =~= before.update(k as int, known@));
                        }
                    },
                }
            },
        }
    }

    /// The record `seen` with the identity that the declarations of the
    /// current page give it.
    pub fn identify_record(&self, seen: &Annotation) -> (out: Annotation)
        ensures
            out@ == identified(self@.domains, seen@),
    {
        let mut out = seen.duplicate();
        if seen.id.as_str().is_empty() {
            match self.domain_of(seen.domain_id.as_str()) {
                Some(code) => {
                    if !code.as_str().is_empty() {
                        let domain = if seen.supp {
                            let d = concat3(SUPP, code.as_str(), "");
                            assert(d@ =~= supplemental(code@)) by {
                                reveal_strlit("");
                            }
                            d
                        } else {
                            code
                        };
                        out.id = identify(domain.as_str(), seen.variable.as_str());
                        out.domain = domain;
                    }
                },
                None => {},
            }
        }
        out
    }

    /// Reads the page `page` with the annotations `objects`: reads each
    /// annotation in turn, then merges what was found into the records.
    pub fn fetch_page(&mut self, page: usize, objects: &Vec<PageAnnotation>)
        requires
            old(self).wf(),
        ensures
            final(self).wf(),
            final(self)@ == read_page(old(self)@, page as nat, object_views(objects@)),
            chronological(old(self)@.records, page as nat) ==> chronological(
                final(self)@.records,
                page as nat,
            ),
            canonical_all(old(self)@.records) ==> canonical_all(final(self)@.records),
    {
        let ghost start = self@;
        let ghost model = object_views(objects@);
        self.begin_page(page);
        let mut found: Vec<Annotation> = Vec::new();
        let n = objects.len();
        let mut i: usize = 0;
        while i < n
            invariant
                i <= n,
                n == objects@.len(),
                model == object_views(objects@),
                self@.records == start.records,
                self.wf(),
                self@.page == page as nat,
                (self@, views(found@)) == read_objects(opened(start, page as nat), model, i as int),
                forall|j: int|
                    0 <= j < found@.len() ==> read_on((#[trigger] found@[j])@, page as nat),
            decreases n - i,
        {
            let object = &objects[i];
            match &object.color {
                Some(flags) => {
                    self.set_marker(flags.as_slice());
                },
                None => {},
            }
            match &object.contents {
                Some(raw) => {
                    let mut records = self.object_to_annotations(raw.as_slice());
                    found.append(&mut records);
                },
                None => {},
            }
            i += 1;
        }
        let ghost read = self@;
        let ghost list = views(found@);
        let m = found.len();
        let mut k: usize = 0;
        while k < m
            invariant
                k <= m,
                m == found@.len(),
                list == views(found@),
                self.wf(),
                self@ == (FetcherView {
                    records: merged_all(start.records, read.domains, list, k as int),
                    ..read
                }),
                chronological(start.records, page as nat) ==> chronological(
                    self@.records,
                    page as nat,
                ),
                canonical_all(start.records) ==> canonical_all(self@.records),
                forall|j: int|
                    0 <= j < found@.len() ==> read_on((#[trigger] found@[j])@, page as nat),
            decreases m - k,
        {
            let record = self.identify_record(&found[k]);
            proof {
                if chronological(self@.records, page as nat) {
                    lemma_merge_chronological(self@.records, record@, page as nat);
                }
                if canonical_all(self@.records) {
                    lemma_merge_canonical(self@.records, record@);
                }
            }
            self.merge(record);
            k += 1;
        }
    }

    /// Reads the pages of a document in their order. The first page, the
    /// cover, is left out; the pages are counted from 1.
    pub fn fetch(&mut self, pages: &Vec<Vec<PageAnnotation>>)
        requires
            old(self).wf(),
        ensures
            final(self).wf(),
            final(self)@ == read_pages(old(self)@, page_views(pages@), pages@.len() as int),
            chronological(old(self)@.records, 1) ==> chronological(
                final(self)@.records,
                if pages@.len() < 1 {
                    1
                } else {
                    pages@.len()
                },
            ),
            canonical_all(old(self)@.records) ==> canonical_all(final(self)@.records),
    {
        let ghost start = self@;
        let ghost model = page_views(pages@);
        let n = pages.len();
        let mut k: usize = 0;
        while k < n
            invariant
                k <= n,
                n == pages@.len(),
                model == page_views(pages@),
                self.wf(),
                self@ == read_pages(start, model, k as int),
                chronological(start.records, 1) ==> chronological(
                    self@.records,
                    if k < 1 {
                        1
                    } else {
                        k as nat
                    },
                ),
                canonical_all(start.records) ==> canonical_all(self@.records),
            decreases n - k,
        {
            if k > 0 {
                proof {
                    if chronological(self@.records, k as nat) {
                        lemma_chronological_later(self@.records, k as nat, (k + 1) as nat);
                    }
                }
                self.fetch_page(k + 1, &pages[k]);
            }
            k += 1;
        }
    }

    /// The records, sorted by identity.
    pub fn annotations(&self) -> (out: Vec<Annotation>)
        requires
            self.wf(),
        ensures
            views(out@) == exported(self@.records),
            is_sorting(sorting_of(id_keys(self@.records)), id_keys(self@.records)),
            out@.len() == self@.records.len(),
            forall|i: int, j: int|
                0 <= i < j < out@.len() ==> text_le(
                    (#[trigger] out@[i])@.id,
                    (#[trigger] out@[j])@.id,
                ) && out@[i]@.id != out@[j]@.id,
            forall|page: nat|
                chronological(self@.records, page) ==> #[trigger] chronological(views(out@), page),
            well_formed(views(out@)),
            canonical_all(self@.records) ==> canonical_all(views(out@)),
    {
        let n = self.annotation_map.len();
        let ghost records = self@.records;
        let mut keys: Vec<(String, String)> = Vec::new();
        let mut i: usize = 0;
        while i < n
            invariant
                i <= n,
                n == self.annotation_map@.len(),
                records == views(self.annotation_map@),
                keys@.len() == i,
                forall|j: int|
                    0 <= j < i ==> (#[trigger] keys@[j]).0@ == records[j].id && keys@[j].1@
                        == Seq::<char>::empty(),
            decreases n - i,
        {
            keys.push((self.annotation_map[i].id.clone(), String::new()));
            i += 1;
        }
        assert(key_views(keys@) =~= id_keys(records));
        let order = sorted_order(&keys);
        let ghost places = positions(order@);
        let mut out: Vec<Annotation> = Vec::new();
        let mut k: usize = 0;
        while k < n
            invariant
                k <= n,
                n == self.annotation_map@.len(),
                n == order@.len(),
                records == views(self.annotation_map@),
                places == positions(order@),
                is_sorting(places, id_keys(records)),
                out@.len() == k,
                forall|j: int| 0 <= j < k ==> (#[trigger] out@[j])@ == records[places[j]],
            decreases n - k,
        {
            assert(places[k as int] == order@[k as int]);
            out.push(self.annotation_map[order[k]].duplicate());
            k += 1;
        }
        proof {
            assert(views(out@) =~= arranged(records, places));
        }
        out
    }
}

/// The keys by which records are sorted: their identities.
pub open spec fn id_keys(records: Seq<AnnotationView>) -> Seq<(Seq<char>, Seq<char>)> {
    records.map_values(|r: AnnotationView| (r.id, Seq::<char>::empty()))
}

/// The records `records` by ascending identity. By `lemma_sorted_by` it
/// holds each of them once.
pub open spec fn exported(records: Seq<AnnotationView>) -> Seq<AnnotationView> {
    sorted_by(records, id_keys(records))
}

/// Reads the pages of a document and gives the records of its variables,
/// sorted by identity.
pub fn fetch(pages: &Vec<Vec<PageAnnotation>>) -> (out: Vec<Annotation>)
    ensures
        views(out@) == exported(
            read_pages(
                AnnotationFetcher::new_spec(),
                page_views(pages@),
                pages@.len() as int,
            ).records,
        ),
        forall|i: int, j: int|
            0 <= i < j < out@.len() ==> text_le((#[trigger] out@[i])@.id, (#[trigger] out@[j])@.id)
                && out@[i]@.id != out@[j]@.id,
        forall|i: int| 0 <= i < out@.len() ==> ascending_history((#[trigger] out@[i])@),
        well_formed(views(out@)),
        canonical_all(views(out@)),
{
    let mut fetcher = AnnotationFetcher::new();
    fetcher.fetch(pages);
    let out = fetcher.annotations();
    proof {
        assert(chronological(
            views(out@),
            if pages@.len() < 1 {
                1
            } else {
                pages@.len()
            },
        ));
        assert forall|i: int| 0 <= i < out@.len() implies ascending_history(
            (#[trigger] out@[i])@,
        ) by {
            assert(views(out@)[i] == out@[i]@);
        }
    }
    out
}

} // verus!
