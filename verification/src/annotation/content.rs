//! The records that annotations are turned into.

use vstd::prelude::*;

verus! {

/// What is said of one variable on one page.
#[derive(Debug, Clone, PartialEq, Eq)]
pub struct PageDescription {
    /// The page, counted from 1.
    pub page: usize,
    /// The clauses found on that page, in the order in which they were found.
    pub description: Vec<String>,
}

/// One variable of one dataset, with what the form says of it page by page.
#[derive(Debug, Clone, PartialEq, Eq)]
pub struct Annotation {
    /// The identity `domain-variable`; empty while the domain is not known.
    pub id: String,
    /// The dataset code.
    pub domain: String,
    /// The page-local marker under which the annotation was found.
    pub domain_id: String,
    /// The name of the variable.
    pub variable: String,
    /// One entry for each page on which the variable was seen, in the order of first sight.
    pub page_description: Vec<PageDescription>,
    /// Whether the annotation names a supplemental dataset.
    pub supp: bool,
    /// The statement that the record was read from.
    pub raw: String,
}

/// The mathematical content of a [`PageDescription`].
pub struct PageDescriptionView {
    pub page: nat,
    pub description: Seq<Seq<char>>,
}

/// The mathematical content of an [`Annotation`].
pub struct AnnotationView {
    pub id: Seq<char>,
    pub domain: Seq<char>,
    pub domain_id: Seq<char>,
    pub variable: Seq<char>,
    pub page_description: Seq<PageDescriptionView>,
    pub supp: bool,
    pub raw: Seq<char>,
}

impl View for PageDescription {
    type V = PageDescriptionView;

    open spec fn view(&self) -> PageDescriptionView {
        PageDescriptionView {
            page: self.page as nat,
            description: self.description.deep_view(),
        }
    }
}

impl View for Annotation {
    type V = AnnotationView;

    open spec fn view(&self) -> AnnotationView {
        AnnotationView {
            id: self.id@,
            domain: self.domain@,
            domain_id: self.domain_id@,
            variable: self.variable@,
            page_description: self.page_description@.map_values(|p: PageDescription| p@),
            supp: self.supp,
            raw: self.raw@,
        }
    }
}

/// The contents of a list of records.
pub open spec fn views(list: Seq<Annotation>) -> Seq<AnnotationView> {
    list.map_values(|a: Annotation| a@)
}

/// A copy of a list of texts.
pub fn copy_texts(list: &Vec<String>) -> (out: Vec<String>)
    ensures
        out.deep_view() == list.deep_view(),
{
    let mut out: Vec<String> = Vec::new();
    let n = list.len();
    let mut i: usize = 0;
    while i < n
        invariant
            i <= n,
            n == list@.len(),
            out@.len() == i,
            forall|j: int| 0 <= j < i ==> out@[j]@ == list@[j]@,
        decreases n - i,
    {
        out.push(list[i].clone());
        i += 1;
    }
    out
}

impl PageDescription {
    /// Tells whether the clause `desc` already stands in this entry.
    pub fn has_description_in_same_page(&self, desc: &str) -> (found: bool)
        ensures
            found == self@.description.contains(desc@),
    {
        let wanted = desc.to_owned();
        let n = self.description.len();
        let mut i: usize = 0;
        while i < n
            invariant
                i <= n,
                n == self.description@.len(),
                wanted@ == desc@,
                forall|j: int| 0 <= j < i ==> self@.description[j] != desc@,
            decreases n - i,
        {
            if self.description[i] == wanted {
                proof {
                    assert(self@.description[i as int] == desc@);
                }
                return true;
            }
            i += 1;
        }
        false
    }

    /// A copy of this entry.
    pub fn duplicate(&self) -> (out: PageDescription)
        ensures
            out@ == self@,
    {
        PageDescription { page: self.page, description: copy_texts(&self.description) }
    }
}

/// Whether no clause stands twice in `clauses`.
pub open spec fn distinct(clauses: Seq<Seq<char>>) -> bool {
    forall|i: int, j: int| 0 <= i < j < clauses.len() ==> clauses[i] != clauses[j]
}

/// The clauses `have`, and after them those of the first `upto` clauses of
/// `more` that did not stand there yet.
pub open spec fn with_clauses(have: Seq<Seq<char>>, more: Seq<Seq<char>>, upto: int) -> Seq<
    Seq<char>,
>
    decreases upto,
{
    if upto <= 0 {
        have
    } else {
        let before = with_clauses(have, more, upto - 1);
        if before.contains(more[upto - 1]) {
            before
        } else {
            before.push(more[upto - 1])
        }
    }
}

/// The clauses `clauses`, each once, in the order in which they first stand.
pub open spec fn once(clauses: Seq<Seq<char>>) -> Seq<Seq<char>> {
    with_clauses(Seq::empty(), clauses, clauses.len() as int)
}

/// The page entry `entry` with each of its clauses once.
pub open spec fn cleaned(entry: PageDescriptionView) -> PageDescriptionView {
    PageDescriptionView { page: entry.page, description: once(entry.description) }
}

/// Whether no page entry of the record `record` holds a clause twice.
pub open spec fn tidy(record: AnnotationView) -> bool {
    forall|i: int|
        0 <= i < record.page_description.len() ==> distinct(
            (#[trigger] record.page_description[i]).description,
        )
}

/// Adding clauses keeps what was there in its place, and puts the new ones
/// after it: each clause that was there or was added stands in the result,
/// and nothing else does.
pub proof fn lemma_with_clauses(have: Seq<Seq<char>>, more: Seq<Seq<char>>, upto: int)
    requires
        0 <= upto <= more.len(),
    ensures
        have.len() <= with_clauses(have, more, upto).len(),
        with_clauses(have, more, upto).take(have.len() as int) == have,
        forall|i: int|
            0 <= i < upto ==> with_clauses(have, more, upto).contains(#[trigger] more[i]),
        forall|c: Seq<char>|
            #![trigger with_clauses(have, more, upto).contains(c)]
            with_clauses(have, more, upto).contains(c) ==> have.contains(c) || more.take(
                upto,
            ).contains(c),
        distinct(have) ==> distinct(with_clauses(have, more, upto)),
    decreases upto,
{
    let now = with_clauses(have, more, upto);
    if upto > 0 {
        lemma_with_clauses(have, more, upto - 1);
        let before = with_clauses(have, more, upto - 1);
        let last = more[upto - 1];
        assert forall|i: int| 0 <= i < upto implies now.contains(#[trigger] more[i]) by {
            if i < upto - 1 {
                let k = choose|k: int| 0 <= k < before.len() && before[k] == more[i];
                assert(now[k] == more[i]);
            } else if !before.contains(last) {
                assert(now[before.len() as int] == last);
            }
        }
        assert forall|c: Seq<char>|
            #![trigger now.contains(c)]
            now.contains(c) implies have.contains(c) || more.take(upto).contains(c) by {
            let k = choose|k: int| 0 <= k < now.len() && now[k] == c;
            if k < before.len() {
                assert(before.contains(c));
            } else {
                assert(more.take(upto)[upto - 1] == c);
            }
        }
    }
}

/// Adding clauses that are all there changes nothing.
pub proof fn lemma_with_clauses_known(have: Seq<Seq<char>>, more: Seq<Seq<char>>, upto: int)
    requires
        0 <= upto <= more.len(),
        forall|i: int| 0 <= i < upto ==> have.contains(#[trigger] more[i]),
    ensures
        with_clauses(have, more, upto) == have,
    decreases upto,
{
    if upto > 0 {
        lemma_with_clauses_known(have, more, upto - 1);
    }
}

/// A list of clauses with each clause once holds no clause twice, holds
/// every clause of the list, and is the list itself where that one held no
/// clause twice.
pub proof fn lemma_once(clauses: Seq<Seq<char>>)
    ensures
        distinct(once(clauses)),
        forall|i: int| 0 <= i < clauses.len() ==> once(clauses).contains(#[trigger] clauses[i]),
        forall|c: Seq<char>|
            #![trigger once(clauses).contains(c)]
            once(clauses).contains(c) ==> clauses.contains(c),
        once(once(clauses)) == once(clauses),
{
    let none = Seq::<Seq<char>>::empty();
    let n = clauses.len() as int;
    lemma_with_clauses(none, clauses, n);
    assert(clauses.take(n) =~= clauses);
    assert forall|c: Seq<char>| #![trigger once(clauses).contains(c)] once(clauses).contains(
        c,
    ) implies clauses.contains(c) by {
        assert(!none.contains(c));
    }
    lemma_once_of_distinct(once(clauses));
}

/// A list that holds no clause twice is left as it is.
pub proof fn lemma_once_of_distinct(clauses: Seq<Seq<char>>)
    requires
        distinct(clauses),
    ensures
        once(clauses) == clauses,
{
    lemma_prefix_once(clauses, clauses.len() as int);
    assert(clauses.take(clauses.len() as int) =~= clauses);
}

/// Of a list that holds no clause twice, the first `upto` clauses added to
/// nothing are those clauses.
pub proof fn lemma_prefix_once(clauses: Seq<Seq<char>>, upto: int)
    requires
        distinct(clauses),
        0 <= upto <= clauses.len(),
    ensures
        with_clauses(Seq::empty(), clauses, upto) == clauses.take(upto),
    decreases upto,
{
    if upto > 0 {
        lemma_prefix_once(clauses, upto - 1);
        let before = clauses.take(upto - 1);
        if before.contains(clauses[upto - 1]) {
            let k = choose|k: int| 0 <= k < before.len() && before[k] == clauses[upto - 1];
            assert(clauses[k] == clauses[upto - 1]);
        }
        assert(before.push(clauses[upto - 1]) =~= clauses.take(upto));
    } else {
        assert(clauses.take(0) =~= Seq::<Seq<char>>::empty());
    }
}

/// Adds to the entry `entry` those of the clauses `more` that it does not hold yet.
pub fn add_clauses(entry: &mut PageDescription, more: &Vec<String>)
    ensures
        final(entry)@.page == old(entry)@.page,
        final(entry)@.description == with_clauses(
            old(entry)@.description,
            more.deep_view(),
            more@.len() as int,
        ),
        distinct(old(entry)@.description) ==> distinct(final(entry)@.description),
{
    proof {
        lemma_with_clauses(entry@.description, more.deep_view(), more@.len() as int);
    }
    let ghost have = entry@.description;
    let ghost wanted = more.deep_view();
    let n = more.len();
    let mut i: usize = 0;
    while i < n
        invariant
            i <= n,
            n == more@.len(),
            wanted == more.deep_view(),
            entry@.page == old(entry)@.page,
            entry@.description == with_clauses(have, wanted, i as int),
        decreases n - i,
    {
        if !entry.has_description_in_same_page(more[i].as_str()) {
            entry.description.push(more[i].clone());
        }
        i += 1;
    }
}

/// The clauses `clauses`, each once.
pub fn once_each(clauses: &Vec<String>) -> (out: Vec<String>)
    ensures
        out.deep_view() == once(clauses.deep_view()),
        distinct(out.deep_view()),
{
    let mut entry = PageDescription { page: 0, description: Vec::new() };
    assert(entry@.description =~= Seq::<Seq<char>>::empty());
    add_clauses(&mut entry, clauses);
    entry.description
}

/// A copy of a page history.
pub fn copy_history(list: &Vec<PageDescription>) -> (out: Vec<PageDescription>)
    ensures
        out@.map_values(|p: PageDescription| p@) == list@.map_values(|p: PageDescription| p@),
{
    let mut out: Vec<PageDescription> = Vec::new();
    let n = list.len();
    let mut i: usize = 0;
    while i < n
        invariant
            i <= n,
            n == list@.len(),
            out@.len() == i,
            forall|j: int| 0 <= j < i ==> out@[j]@ == list@[j]@,
        decreases n - i,
    {
        out.push(list[i].duplicate());
        i += 1;
    }
    proof {
        assert(out@.map_values(|p: PageDescription| p@) =~= list@.map_values(
            |p: PageDescription| p@,
        ));
    }
    out
}

impl Annotation {
    /// A copy of this record.
    pub fn duplicate(&self) -> (out: Annotation)
        ensures
            out@ == self@,
    {
        Annotation {
            id: self.id.clone(),
            domain: self.domain.clone(),
            domain_id: self.domain_id.clone(),
            variable: self.variable.clone(),
            page_description: copy_history(&self.page_description),
            supp: self.supp,
            raw: self.raw.clone(),
        }
    }
}

} // verus!
