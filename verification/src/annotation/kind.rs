//! The kinds of annotation.

use crate::annotation::pattern::{is_match, matched};
use crate::annotation::symbol::{DECLARATION_SHAPE, STATEMENT_SHAPE, SUPPLEMENT_SHAPE};
use vstd::prelude::*;

verus! {

/// What an annotation is.
#[derive(Debug, Clone, Copy, PartialEq, Eq, Structural)]
pub enum AnnotationKind {
    /// A statement on variables of a dataset.
    Main,
    /// A statement on variables of a supplemental dataset.
    Supp,
    /// Anything else: a note, a dataset declaration.
    Other,
}

/// The kind of a text, given whether it has the shape of a data statement,
/// whether it has the shape of a dataset declaration, and whether it holds the
/// marker of a supplemental dataset.
pub open spec fn kind_of(statement: bool, declaration: bool, supplement: bool) -> AnnotationKind {
    if !statement || declaration {
        AnnotationKind::Other
    } else if supplement {
        AnnotationKind::Supp
    } else {
        AnnotationKind::Main
    }
}

/// The kind of the annotation `raw`.
pub open spec fn classified(raw: Seq<char>) -> AnnotationKind {
    kind_of(
        matched(STATEMENT_SHAPE@, raw),
        matched(DECLARATION_SHAPE@, raw),
        matched(SUPPLEMENT_SHAPE@, raw),
    )
}

/// A text that has the shape of a dataset declaration is no statement,
/// though it may have the shape of one; a text that has not the shape of a
/// statement is none either. Every text has one kind.
pub proof fn lemma_classified(raw: Seq<char>)
    ensures
        matched(DECLARATION_SHAPE@, raw) ==> classified(raw) == AnnotationKind::Other,
        !matched(STATEMENT_SHAPE@, raw) ==> classified(raw) == AnnotationKind::Other,
        classified(raw) == AnnotationKind::Supp <==> matched(STATEMENT_SHAPE@, raw) && !matched(
            DECLARATION_SHAPE@,
            raw,
        ) && matched(SUPPLEMENT_SHAPE@, raw),
        classified(raw) == AnnotationKind::Main <==> matched(STATEMENT_SHAPE@, raw) && !matched(
            DECLARATION_SHAPE@,
            raw,
        ) && !matched(SUPPLEMENT_SHAPE@, raw),
{
}

/// Tells whether `pattern` matches somewhere in `text`.
pub fn matches(pattern: &str, text: &str) -> (found: bool)
    ensures
        found == matched(pattern@, text@),
{
    match is_match(pattern, text) {
        Some(found) => found,
        None => false,
    }
}

/// The kind of a text from the three shapes that decide it.
pub fn kind_from_shapes(statement: bool, declaration: bool, supplement: bool) -> (kind:
    AnnotationKind)
    ensures
        kind == kind_of(statement, declaration, supplement),
        declaration ==> kind == AnnotationKind::Other,
        !statement ==> kind == AnnotationKind::Other,
{
    if !statement {
        AnnotationKind::Other
    } else if declaration {
        AnnotationKind::Other
    } else if supplement {
        AnnotationKind::Supp
    } else {
        AnnotationKind::Main
    }
}

/// The kind of the annotation `raw`.
pub fn annotation_kind(raw: &str) -> (kind: AnnotationKind)
    ensures
        kind == classified(raw@),
{
    let statement = matches(STATEMENT_SHAPE, raw);
    let declaration = statement && matches(DECLARATION_SHAPE, raw);
    let supplement = statement && !declaration && matches(SUPPLEMENT_SHAPE, raw);
    kind_from_shapes(statement, declaration, supplement)
}

} // verus!
