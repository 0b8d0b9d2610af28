//! The keywords of the source language.

use crate::text::str_equal;
use vstd::prelude::*;

verus! {

/// The reserved words of the source language.
#[derive(Debug, Copy, Clone, PartialEq, Eq, Structural)]
pub enum Keyword {
    Import,
    Export,
    Type,
    Function,
    If,
    Else,
}

impl Keyword {
    /// The keyword as it is written in a source text.
    pub open spec fn text(self) -> Seq<char> {
        match self {
            Keyword::Import => "import"@,
            Keyword::Export => "export"@,
            Keyword::Type => "type"@,
            Keyword::Function => "fn"@,
            Keyword::If => "if"@,
            Keyword::Else => "else"@,
        }
    }

    /// The keyword as it is written in a source text.
    pub fn as_str(self) -> (s: &'static str)
        ensures
            s@ == self.text(),
    {
        match self {
            Keyword::Import => "import",
            Keyword::Export => "export",
            Keyword::Type => "type",
            Keyword::Function => "fn",
            Keyword::If => "if",
            Keyword::Else => "else",
        }
    }
}

/// The keyword that a lexeme spells, if it spells one.
pub open spec fn keyword_of(name: Seq<char>) -> Option<Keyword> {
    if name == Keyword::Import.text() {
        Some(Keyword::Import)
    } else if name == Keyword::Export.text() {
        Some(Keyword::Export)
    } else if name == Keyword::Type.text() {
        Some(Keyword::Type)
    } else if name == Keyword::Function.text() {
        Some(Keyword::Function)
    } else if name == Keyword::If.text() {
        Some(Keyword::If)
    } else if name == Keyword::Else.text() {
        Some(Keyword::Else)
    } else {
        None
    }
}

/// Looks a lexeme up among the keywords.
pub fn get_matching_keyword(name: &str) -> (keyword: Option<Keyword>)
    ensures
        keyword == keyword_of(name@),
{
    if str_equal(name, "import") {
        Some(Keyword::Import)
    } else if str_equal(name, "export") {
        Some(Keyword::Export)
    } else if str_equal(name, "type") {
        Some(Keyword::Type)
    } else if str_equal(name, "fn") {
        Some(Keyword::Function)
    } else if str_equal(name, "if") {
        Some(Keyword::If)
    } else if str_equal(name, "else") {
        Some(Keyword::Else)
    } else {
        None
    }
}

/// Every keyword is found again from its own spelling.
pub proof fn lemma_keyword_round_trip(keyword: Keyword)
    ensures
        keyword_of(keyword.text()) == Some(keyword),
{
    reveal_strlit("import");
    reveal_strlit("export");
    reveal_strlit("type");
    reveal_strlit("fn");
    reveal_strlit("if");
    reveal_strlit("else");
    assert("import"@.len() == 6 && "export"@.len() == 6 && "type"@.len() == 4 && "fn"@.len() == 2
        && "if"@.len() == 2 && "else"@.len() == 4);
    assert("import"@[0] == 'i' && "export"@[0] == 'e');
    assert("type"@[0] == 't' && "else"@[0] == 'e');
    assert("fn"@[0] == 'f' && "if"@[0] == 'i');
}

} // verus!
