//! The fixed words and signs of the annotation grammar.

use vstd::prelude::*;

verus! {

pub const SPACE: &'static str = " ";

pub const NL: &'static str = "\n";

pub const CR: &'static str = "\r";

pub const EQUAL_SIGN: &'static str = "=";

pub const WHEN: &'static str = " when ";

pub const SLASH: &'static str = "/";

pub const SLASH_WITH_BLANK: &'static str = " / ";

pub const IN: &'static str = " in ";

pub const DATEPART: &'static str = "Datepart of ";

pub const TIMEPART: &'static str = "Timepart of ";

pub const TESTCD: &'static str = "TESTCD";

pub const SUPP: &'static str = "SUPP";

pub const DASH: &'static str = "-";

pub const EQUALS: &'static str = " = ";

/// A data statement: an optional conditional, date-part or time-part phrase,
/// then four to eight capital letters or digits.
pub const STATEMENT_SHAPE: &'static str =
    "^((If\\s.+?then\\s)|(Datepart\\sof\\s)|(Timepart\\sof\\s))?[A-Z0-9]{4,8}.*";

/// A dataset declaration: a short code of capital letters before an opening parenthesis.
pub const DECLARATION_SHAPE: &'static str = "^[A-Z]{2,6}\\s?\\(";

/// The marker of a supplemental dataset.
pub const SUPPLEMENT_SHAPE: &'static str = "SUPP[A-Z]{2}";

/// A declaration whose code, the first group, stands before a parenthesised title.
pub const TITLED_DOMAIN: &'static str = "^([A-Z]{2,6})\\s?\\(.*?\\)";

/// A declaration whose code, the first group, stands before an equal sign.
pub const ASSIGNED_DOMAIN: &'static str = "^([A-Z]{2}|RELREC)\\s?=";

/// A leading condition; the first group is what follows it.
pub const CONDITION: &'static str = "^If\\s\\w+?\\sthen\\s(.*)";

/// Every separator is at least one character long.
pub proof fn lemma_separators()
    ensures
        NL@.len() == 1,
        CR@.len() == 1,
        EQUAL_SIGN@.len() == 1,
        WHEN@.len() == 6,
        SLASH@.len() == 1,
        SLASH_WITH_BLANK@.len() == 3,
        IN@.len() == 4,
{
    reveal_strlit("\n");
    reveal_strlit("\r");
    reveal_strlit("=");
    reveal_strlit(" when ");
    reveal_strlit("/");
    reveal_strlit(" / ");
    reveal_strlit(" in ");
}

} // verus!
